//! The config primitives' own logic: a deployed file's sync state, the
//! marker-delimited block a `block` step keeps in a user file, the INI line a
//! `setkey` writes, the `sudo install` a `sysfile` runs, and how an `exec`
//! step's drift hook reads. Reading and writing the files is the caller's
//! part.
use vstd::prelude::*;
use crate::manifest::{str_views, Vars};
use crate::text::{
    chars_of, contains, find_sub, first_sub, lines, lines_of, push_char, push_chars, push_str, same, slice,
    string_of, strip_trail, trim, trimmed, views,
};

verus! {

/// The sync state of a deployed file relative to its source.
#[derive(Debug, Clone, Copy, PartialEq, Eq, Structural)]
pub enum FileState {
    /// Target absent.
    Missing,
    /// Target matches source.
    InSync,
    /// Target present but differs.
    Drifted,
    /// Cannot be evaluated here (the backend's tool is absent).
    Unavailable,
}

pub open spec fn label_spec(s: FileState) -> Seq<char> {
    match s {
        FileState::Missing => "missing"@,
        FileState::InSync => "in sync"@,
        FileState::Drifted => "drifted"@,
        FileState::Unavailable => "unavailable"@,
    }
}

impl FileState {
    /// The state's name in a report.
    pub fn label(self) -> (r: &'static str)
        ensures
            r@ == label_spec(self),
    {
        match self {
            FileState::Missing => "missing",
            FileState::InSync => "in sync",
            FileState::Drifted => "drifted",
            FileState::Unavailable => "unavailable",
        }
    }

    /// Nothing to repair: in sync, or not evaluable here.
    pub fn is_ok(self) -> (r: bool)
        ensures
            r == (self == FileState::InSync || self == FileState::Unavailable),
    {
        match self {
            FileState::InSync | FileState::Unavailable => true,
            _ => false,
        }
    }
}

/// Options for a `copy` step.
#[derive(Debug, Clone)]
pub struct CopyOpts {
    /// Render `{{ … }}` before deploying.
    pub template: bool,
    /// Create once, then leave alone; excluded from drift.
    pub seed: bool,
    /// Octal mode to enforce on the target.
    pub mode: Option<String>,
    /// Declared template variables.
    pub vars: Vars,
}

/// Execution context for `exec` and `check` scripts.
#[derive(Debug, Clone)]
pub struct ExecOpts {
    pub secrets: Vec<String>,
    pub home: String,
    pub machine: String,
    pub os: String,
}

/// Options for a `sysfile` step.
#[derive(Debug, Clone)]
pub struct SysfileOpts {
    pub mode: Option<String>,
    pub owner: Option<String>,
    pub group: Option<String>,
}

/// An exec step's drift: its check hook's verdict, or, without a hook, a
/// visible "no drift-check".
pub open spec fn exec_state_spec(check: Option<bool>) -> (bool, Seq<char>) {
    match check {
        Some(true) => (true, "in sync"@),
        Some(false) => (false, "drifted"@),
        None => (true, "no drift-check"@),
    }
}

fn text(s: &str) -> (r: String)
    ensures
        r@ == s@,
{
    let mut r = String::new();
    push_str(&mut r, s);
    r
}

/// Drift state for an `exec` step, from whether its check hook passed
/// (`None` when it has none).
pub fn exec_state(check: Option<bool>) -> (r: (bool, String))
    ensures
        (r.0, r.1@) == exec_state_spec(check),
{
    match check {
        Some(true) => (true, text("in sync")),
        Some(false) => (false, text("drifted")),
        None => (true, text("no drift-check")),
    }
}

/// The environment an `exec` script or check hook runs with: the folder,
/// machine and OS, then each named secret with its value; the first secret
/// that is unset refuses the run.
pub open spec fn exec_env_spec(home: Seq<char>, machine: Seq<char>, os: Seq<char>, secrets: Seq<(Seq<char>, Option<Seq<char>>)>) -> Result<Seq<(Seq<char>, Seq<char>)>, Seq<char>>
    decreases secrets.len(),
{
    if secrets.len() == 0 {
        Ok(seq![("TEMPER_HOME"@, home), ("TEMPER_MACHINE"@, machine), ("TEMPER_OS"@, os)])
    } else {
        match exec_env_spec(home, machine, os, secrets.drop_last()) {
            Err(m) => Err(m),
            Ok(env) => match secrets.last().1 {
                None => Err("exec: required secret env `"@ + secrets.last().0 + "` is not set"@),
                Some(v) => Ok(env.push((secrets.last().0, v))),
            },
        }
    }
}

pub open spec fn secret_views(v: Seq<(String, Option<String>)>) -> Seq<(Seq<char>, Option<Seq<char>>)> {
    v.map_values(|p: (String, Option<String>)| (p.0@, match p.1 {
        Some(x) => Some(x@),
        None => None,
    }))
}

pub open spec fn pair_views(v: Seq<(String, String)>) -> Seq<(Seq<char>, Seq<char>)> {
    v.map_values(|p: (String, String)| (p.0@, p.1@))
}

/// The environment of an `exec` run, given each secret the step names with
/// its value where the environment sets it.
pub fn exec_env(opts: &ExecOpts, secrets: &[(String, Option<String>)]) -> (r: Result<Vec<(String, String)>, String>)
    ensures
        match r {
            Ok(env) => exec_env_spec(opts.home@, opts.machine@, opts.os@, secret_views(secrets@)) == Ok::<
                Seq<(Seq<char>, Seq<char>)>,
                Seq<char>,
            >(pair_views(env@)),
            Err(m) => exec_env_spec(opts.home@, opts.machine@, opts.os@, secret_views(secrets@)) == Err::<
                Seq<(Seq<char>, Seq<char>)>,
                Seq<char>,
            >(m@),
        },
{
    let mut env: Vec<(String, String)> = Vec::new();
    env.push((text("TEMPER_HOME"), text(opts.home.as_str())));
    env.push((text("TEMPER_MACHINE"), text(opts.machine.as_str())));
    env.push((text("TEMPER_OS"), text(opts.os.as_str())));
    let ghost sv = secret_views(secrets@);
    assert(pair_views(env@) =~= seq![("TEMPER_HOME"@, opts.home@), ("TEMPER_MACHINE"@, opts.machine@), ("TEMPER_OS"@, opts.os@)]);
    assert(sv.take(0) =~= Seq::<(Seq<char>, Option<Seq<char>>)>::empty());
    let mut i: usize = 0;
    while i < secrets.len()
        invariant
            i <= secrets@.len(),
            sv == secret_views(secrets@),
            exec_env_spec(opts.home@, opts.machine@, opts.os@, sv.take(i as int)) == Ok::<
                Seq<(Seq<char>, Seq<char>)>,
                Seq<char>,
            >(pair_views(env@)),
        decreases secrets.len() - i,
    {
        assert(sv.take(i as int + 1).drop_last() =~= sv.take(i as int));
        let (name, value) = (&secrets[i].0, &secrets[i].1);
        match value {
            None => {
                let mut m = String::new();
                push_str(&mut m, "exec: required secret env `");
                push_str(&mut m, name.as_str());
                push_str(&mut m, "` is not set");
                proof {
                    lemma_env_err_sticks(opts.home@, opts.machine@, opts.os@, sv, i as int + 1);
                }
                return Err(m);
            },
            Some(v) => {
                let ghost before = pair_views(env@);
                env.push((text(name.as_str()), text(v.as_str())));
                assert(pair_views(env@) =~= before.push((name@, v@)));
            },
        }
        i += 1;
    }
    assert(sv.take(secrets@.len() as int) =~= sv);
    Ok(env)
}

proof fn lemma_env_err_sticks(home: Seq<char>, machine: Seq<char>, os: Seq<char>, sv: Seq<(Seq<char>, Option<Seq<char>>)>, n: int)
    requires
        0 <= n <= sv.len(),
        exec_env_spec(home, machine, os, sv.take(n)) is Err,
    ensures
        exec_env_spec(home, machine, os, sv) == exec_env_spec(home, machine, os, sv.take(n)),
    decreases sv.len() - n,
{
    if n < sv.len() {
        assert(sv.take(n + 1).drop_last() =~= sv.take(n));
        lemma_env_err_sticks(home, machine, os, sv, n + 1);
    } else {
        assert(sv.take(n) =~= sv);
    }
}

/// Whether an `exec` step's script runs: not when its check hook already
/// passes.
pub fn exec_should_run(check: Option<bool>) -> (r: bool)
    ensures
        r == (check != Some(true)),
{
    match check {
        Some(true) => false,
        _ => true,
    }
}

pub open spec fn opt_flag(flag: Seq<char>, v: Option<String>) -> Seq<Seq<char>> {
    match v {
        Some(x) => seq![flag, x@],
        None => Seq::empty(),
    }
}

/// `sudo install -D [-m mode] [-o owner] [-g group] src dest`.
pub open spec fn install_argv_spec(src: Seq<char>, dest: Seq<char>, opts: SysfileOpts) -> Seq<Seq<char>> {
    seq!["sudo"@, "install"@, "-D"@] + opt_flag("-m"@, opts.mode) + opt_flag("-o"@, opts.owner) + opt_flag(
        "-g"@,
        opts.group,
    ) + seq![src, dest]
}

fn push_flag(a: &mut Vec<String>, flag: &str, v: &Option<String>)
    ensures
        str_views(final(a)@) == str_views(old(a)@) + opt_flag(flag@, *v),
{
    let ghost before = str_views(a@);
    match v {
        Some(x) => {
            a.push(text(flag));
            a.push(text(x.as_str()));
            assert(str_views(a@) =~= before + seq![flag@, x@]);
        },
        None => {
            assert(str_views(a@) =~= before + Seq::<Seq<char>>::empty());
        },
    }
}

/// The `sudo install` argv for an escalated system-file write: `-D` creates
/// parent directories, and mode, owner and group are applied by `install`.
pub fn sysfile_install_argv(src: &str, dest: &str, opts: &SysfileOpts) -> (r: Vec<String>)
    ensures
        str_views(r@) == install_argv_spec(src@, dest@, *opts),
{
    let mut a: Vec<String> = Vec::new();
    a.push(text("sudo"));
    a.push(text("install"));
    a.push(text("-D"));
    assert(str_views(a@) =~= seq!["sudo"@, "install"@, "-D"@]);
    push_flag(&mut a, "-m", &opts.mode);
    push_flag(&mut a, "-o", &opts.owner);
    push_flag(&mut a, "-g", &opts.group);
    let ghost before = str_views(a@);
    a.push(text(src));
    a.push(text(dest));
    assert(str_views(a@) =~= before + seq![src@, dest@]);
    a
}

// ---------------------------------------------------------------------------
// block: a marker-delimited region in a user file

/// The begin and end lines that delimit a block with this marker.
pub open spec fn markers_spec(marker: Seq<char>) -> (Seq<char>, Seq<char>) {
    ("# >>> temper:"@ + marker + " >>>"@, "# <<< temper:"@ + marker + " <<<"@)
}

pub fn markers(marker: &str) -> (r: (String, String))
    ensures
        (r.0@, r.1@) == markers_spec(marker@),
{
    let mut b = String::new();
    push_str(&mut b, "# >>> temper:");
    push_str(&mut b, marker);
    push_str(&mut b, " >>>");
    let mut e = String::new();
    push_str(&mut e, "# <<< temper:");
    push_str(&mut e, marker);
    push_str(&mut e, " <<<");
    (b, e)
}

/// Why a block cannot be written.
#[derive(Debug, Clone, PartialEq, Eq)]
pub enum BlockError {
    /// The body holds a delimiter line.
    MarkerInBody,
    /// The file holds an unbalanced or out-of-order region: the delimiters.
    Malformed(String, String),
}

impl BlockError {
    /// The message shown for the refusal.
    pub fn message(&self) -> (r: String)
        ensures
            r@ == match self {
                BlockError::MarkerInBody => "block body contains the marker delimiter — pick a different marker name"@,
                BlockError::Malformed(b, e) => "malformed marker region (unbalanced or out-of-order `"@ + b@ + "` / `"@
                    + e@ + "`) — fix or remove it by hand"@,
            },
    {
        let mut r = String::new();
        match self {
            BlockError::MarkerInBody => {
                push_str(&mut r, "block body contains the marker delimiter — pick a different marker name");
            },
            BlockError::Malformed(b, e) => {
                push_str(&mut r, "malformed marker region (unbalanced or out-of-order `");
                push_str(&mut r, b.as_str());
                push_str(&mut r, "` / `");
                push_str(&mut r, e.as_str());
                push_str(&mut r, "`) — fix or remove it by hand");
            },
        }
        r
    }
}

/// The region a block writes: begin line, body without trailing newlines,
/// end line.
pub open spec fn region_spec(begin: Seq<char>, end: Seq<char>, body: Seq<char>) -> Seq<char> {
    begin + seq!['\n'] + strip_trail(body, '\n') + seq!['\n'] + end
}

/// Text appended after `existing` ends its last line and leaves a blank
/// line, when it has any text.
pub open spec fn appended(existing: Seq<char>, region: Seq<char>) -> Seq<char> {
    let a = if existing.len() > 0 && existing.last() != '\n' { existing.push('\n') } else { existing };
    let b = if a.len() > 0 { a.push('\n') } else { a };
    b + region + seq!['\n']
}

/// The file content with `body` inside the marker region: a well-formed
/// region replaced in place, or a new one appended; nothing for a body that
/// holds a delimiter (first error) or a malformed region (second).
pub open spec fn block_desired_spec(existing: Seq<char>, begin: Seq<char>, end: Seq<char>, body: Seq<char>) -> Result<Seq<char>, bool> {
    if contains(body, begin) || contains(body, end) {
        Err(true)
    } else {
        let region = region_spec(begin, end, body);
        let bs = first_sub(existing, begin);
        let es = first_sub(existing, end);
        if bs >= 0 && es >= 0 && es > bs {
            Ok(existing.take(bs) + region + existing.skip(es + end.len()))
        } else if bs < 0 && es < 0 {
            Ok(appended(existing, region))
        } else {
            Err(false)
        }
    }
}

/// Ensures `body` sits inside the marker region of `existing`, refusing a
/// malformed region rather than deleting user content or growing the file
/// on every run.
pub fn block_desired(existing: &str, begin: &str, end: &str, body: &str) -> (r: Result<String, BlockError>)
    ensures
        match r {
            Ok(s) => block_desired_spec(existing@, begin@, end@, body@) == Ok::<Seq<char>, bool>(s@),
            Err(BlockError::MarkerInBody) => block_desired_spec(existing@, begin@, end@, body@) == Err::<Seq<char>, bool>(true),
            Err(BlockError::Malformed(b, e)) => block_desired_spec(existing@, begin@, end@, body@) == Err::<Seq<char>, bool>(false)
                && b@ == begin@ && e@ == end@,
        },
{
    let bc = chars_of(begin);
    let ec = chars_of(end);
    let yc = chars_of(body);
    if crate::text::contains_exec(yc.as_slice(), bc.as_slice()) || crate::text::contains_exec(yc.as_slice(), ec.as_slice()) {
        return Err(BlockError::MarkerInBody);
    }
    let mut region = String::new();
    push_str(&mut region, begin);
    push_char(&mut region, '\n');
    let trimmed_body = crate::dconf::strip_trail_exec(yc.as_slice(), '\n');
    push_chars(&mut region, trimmed_body.as_slice());
    push_char(&mut region, '\n');
    push_str(&mut region, end);
    assert(region@ =~= region_spec(begin@, end@, body@));
    let xc = chars_of(existing);
    match (find_sub(xc.as_slice(), bc.as_slice()), find_sub(xc.as_slice(), ec.as_slice())) {
        (Some(bs), Some(es)) => {
            if es > bs {
                let n = xc.len();
                let after = es + ec.len();
                let head = slice(xc.as_slice(), 0, bs);
                let tail = slice(xc.as_slice(), after, n);
                let mut out = String::new();
                push_chars(&mut out, head.as_slice());
                push_str(&mut out, region.as_str());
                push_chars(&mut out, tail.as_slice());
                assert(head@ =~= existing@.take(bs as int));
                assert(tail@ =~= existing@.skip(es + end@.len()));
                assert(out@ =~= existing@.take(bs as int) + region@ + existing@.skip(es + end@.len()));
                Ok(out)
            } else {
                Err(BlockError::Malformed(text(begin), text(end)))
            }
        },
        (None, None) => {
            let mut out = String::new();
            push_str(&mut out, existing);
            let ghost a0 = out@;
            let n = xc.len();
            if n > 0 && xc[n - 1] != '\n' {
                push_char(&mut out, '\n');
            }
            if n > 0 {
                push_char(&mut out, '\n');
            }
            push_str(&mut out, region.as_str());
            push_char(&mut out, '\n');
            assert(out@ =~= appended(existing@, region@));
            Ok(out)
        },
        _ => Err(BlockError::Malformed(text(begin), text(end))),
    }
}

/// A `block` target's state: missing when the file is absent, else whether
/// it already holds the block as `block_desired` would write it.
pub fn block_state(existing: Option<&str>, body: &str, marker: &str) -> (r: Result<FileState, BlockError>)
    ensures
        existing is None ==> r == Ok::<FileState, BlockError>(FileState::Missing),
        existing matches Some(x) ==> match block_desired_spec(x@, markers_spec(marker@).0, markers_spec(marker@).1, body@) {
            Ok(want) => r == Ok::<FileState, BlockError>(if want == x@ { FileState::InSync } else { FileState::Drifted }),
            Err(_) => r is Err,
        },
{
    match existing {
        None => Ok(FileState::Missing),
        Some(x) => {
            let (b, e) = markers(marker);
            match block_desired(x, b.as_str(), e.as_str(), body) {
                Ok(want) => {
                    if same(chars_of(want.as_str()).as_slice(), chars_of(x).as_slice()) {
                        Ok(FileState::InSync)
                    } else {
                        Ok(FileState::Drifted)
                    }
                },
                Err(err) => Err(err),
            }
        },
    }
}

fn same_bytes(a: &[u8], b: &[u8]) -> (r: bool)
    ensures
        r == (a@ == b@),
{
    if a.len() != b.len() {
        return false;
    }
    let mut i: usize = 0;
    while i < a.len()
        invariant
            i <= a@.len(),
            a@.len() == b@.len(),
            forall|j: int| 0 <= j < i ==> a@[j] == b@[j],
        decreases a.len() - i,
    {
        if a[i] != b[i] {
            return false;
        }
        i += 1;
    }
    assert(a@ =~= b@);
    true
}

/// A `copy` target's state. A seed is in sync once present and never
/// compared; any other copy is missing when absent, else in sync exactly
/// when it holds the bytes to deploy.
pub fn copy_state(seed: bool, want: &[u8], have: Option<&[u8]>) -> (r: FileState)
    ensures
        r == if seed {
            if have is Some { FileState::InSync } else { FileState::Missing }
        } else {
            match have {
                None => FileState::Missing,
                Some(h) => if h@ == want@ { FileState::InSync } else { FileState::Drifted },
            }
        },
{
    if seed {
        return if have.is_some() { FileState::InSync } else { FileState::Missing };
    }
    match have {
        None => FileState::Missing,
        Some(h) => if same_bytes(h, want) { FileState::InSync } else { FileState::Drifted },
    }
}

// ---------------------------------------------------------------------------
// setkey on an INI file: `Section.Key`, or a bare `Key`

/// `key.rsplit_once('.')`: the section before the last dot and the key
/// after it; a key without a dot has no section.
pub open spec fn ini_split_spec(key: Seq<char>) -> (Option<Seq<char>>, Seq<char>) {
    if exists|i: int| crate::providers::is_last_sub(key, seq!['.'], i) {
        let i = choose|i: int| crate::providers::is_last_sub(key, seq!['.'], i);
        (Some(key.take(i)), key.skip(i + 1))
    } else {
        (None, key)
    }
}

fn last_dot(v: &[char]) -> (r: Option<usize>)
    ensures
        match r {
            Some(i) => crate::providers::is_last_sub(v@, seq!['.'], i as int),
            None => !exists|i: int| crate::providers::is_last_sub(v@, seq!['.'], i),
        },
{
    let mut i = v.len();
    while i > 0
        invariant
            i <= v@.len(),
            forall|j: int| i <= j && j + 1 <= v@.len() ==> #[trigger] v@.subrange(j, j + 1) != seq!['.'],
        decreases i,
    {
        let j = i - 1;
        if v[j] == '.' {
            assert(v@.subrange(j as int, j as int + 1) =~= seq!['.']);
            return Some(j);
        }
        assert(v@.subrange(j as int, j as int + 1)[0] == v@[j as int]);
        i = j;
    }
    proof {
        if exists|k: int| crate::providers::is_last_sub(v@, seq!['.'], k) {
            let k = choose|k: int| crate::providers::is_last_sub(v@, seq!['.'], k);
            assert(v@.subrange(k, k + 1) == seq!['.']);
        }
    }
    None
}

/// Splits a setkey key into its INI section and key.
pub fn ini_split(key: &str) -> (r: (Option<String>, String))
    ensures
        (match r.0 {
            Some(s) => Some(s@),
            None => None,
        }, r.1@) == ini_split_spec(key@),
{
    let v = chars_of(key);
    match last_dot(v.as_slice()) {
        Some(i) => {
            proof {
                let k = choose|k: int| crate::providers::is_last_sub(key@, seq!['.'], k);
                assert(crate::providers::is_last_sub(key@, seq!['.'], k));
                if k < i {
                    assert(key@.subrange(i as int, i as int + 1) == seq!['.']);
                } else if k > i {
                    assert(key@.subrange(k, k + 1) == seq!['.']);
                }
            }
            let n = v.len();
            let sec = slice(v.as_slice(), 0, i);
            let k = slice(v.as_slice(), i + 1, n);
            assert(sec@ =~= key@.take(i as int));
            assert(k@ =~= key@.skip(i as int + 1));
            (Some(string_of(sec.as_slice())), string_of(k.as_slice()))
        },
        None => (None, text(key)),
    }
}

/// A line that is a section header once trimmed: `[…]`, and the name inside.
pub open spec fn header_name(line: Seq<char>) -> Option<Seq<char>> {
    let t = trim(line);
    if t.len() > 0 && t[0] == '[' && t.last() == ']' {
        Some(t.subrange(1, t.len() - 1))
    } else {
        None
    }
}

/// `line.split_once('=')`, the key part trimmed, when the line has an `=`.
pub open spec fn line_key(line: Seq<char>) -> Option<Seq<char>> {
    if crate::text::has_char(line, '=') {
        Some(trim(crate::text::before(line, '=')))
    } else {
        None
    }
}

/// The value a key has in the section: the first matching `key=value` line's
/// value, trimmed.
pub open spec fn ini_current_from(ls: Seq<Seq<char>>, section: Option<Seq<char>>, key: Seq<char>, in_section: bool) -> Option<Seq<char>>
    decreases ls.len(),
{
    if ls.len() == 0 {
        None
    } else {
        let l = ls[0];
        match header_name(l) {
            Some(n) => ini_current_from(ls.drop_first(), section, key, section == Some(n)),
            None => if in_section && line_key(l) == Some(key) {
                Some(trim(crate::text::after(l, '=')))
            } else {
                ini_current_from(ls.drop_first(), section, key, in_section)
            },
        }
    }
}

fn header_name_exec(line: &[char]) -> (r: Option<Vec<char>>)
    ensures
        match r {
            Some(n) => header_name(line@) == Some(n@),
            None => header_name(line@) is None,
        },
{
    let t = trimmed(line);
    let n = t.len();
    if n > 0 && t[0] == '[' && t[n - 1] == ']' {
        assert(n >= 2) by {
            if n == 1 {
                assert(t@[0] == t@.last());
            }
        }
        let inner = slice(t.as_slice(), 1, n - 1);
        Some(inner)
    } else {
        None
    }
}

fn line_key_exec(line: &[char]) -> (r: Option<Vec<char>>)
    ensures
        match r {
            Some(k) => line_key(line@) == Some(k@),
            None => line_key(line@) is None,
        },
{
    match crate::text::find_char(line, '=') {
        Some(i) => {
            let k = slice(line, 0, i);
            Some(trimmed(k.as_slice()))
        },
        None => None,
    }
}

fn opt_eq(a: &Option<String>, b: &Option<Vec<char>>) -> (r: bool)
    ensures
        r == ((match a {
            Some(s) => Some(s@),
            None => None,
        }) == (match b {
            Some(v) => Some(v@),
            None => None,
        })),
{
    match (a, b) {
        (Some(x), Some(y)) => same(chars_of(x.as_str()).as_slice(), y.as_slice()),
        (None, None) => true,
        _ => false,
    }
}

/// The value `key` has in `section` of an INI file.
pub fn ini_current(content: &str, section: &Option<String>, key: &str) -> (r: Option<String>)
    ensures
        (match r {
            Some(v) => Some(v@),
            None => None,
        }) == ini_current_from(lines_of(content@), match section {
            Some(s) => Some(s@),
            None => None,
        }, key@, section is None),
{
    let ls = lines(chars_of(content).as_slice());
    let ghost lv = lines_of(content@);
    let ghost sec = match section {
        Some(s) => Some(s@),
        None => None,
    };
    let kc = chars_of(key);
    let mut in_section = section.is_none();
    let mut i: usize = 0;
    assert(lv.subrange(0, lv.len() as int) =~= lv);
    while i < ls.len()
        invariant
            i <= ls@.len(),
            views(ls@) == lv,
            lv == lines_of(content@),
            kc@ == key@,
            sec == match section {
                Some(s) => Some(s@),
                None => None::<Seq<char>>,
            },
            ini_current_from(lv, sec, key@, section is None) == ini_current_from(lv.subrange(i as int, lv.len() as int), sec, key@, in_section),
        decreases ls.len() - i,
    {
        let ghost rest = lv.subrange(i as int, lv.len() as int);
        assert(rest[0] == lv[i as int]);
        assert(lv[i as int] == ls@[i as int]@);
        assert(rest.drop_first() =~= lv.subrange(i as int + 1, lv.len() as int));
        match header_name_exec(ls[i].as_slice()) {
            Some(n) => {
                in_section = opt_eq(section, &Some(n));
            },
            None => {
                if in_section {
                    match line_key_exec(ls[i].as_slice()) {
                        Some(k) => {
                            if same(k.as_slice(), kc.as_slice()) {
                                let f = crate::text::find_char(ls[i].as_slice(), '=');
                                match f {
                                    Some(j) => {
                                        let n2 = ls[i].len();
                                        let v = slice(ls[i].as_slice(), j + 1, n2);
                                        assert(v@ == crate::text::after(lv[i as int], '='));
                                        assert(header_name(rest[0]) is None);
                                        assert(line_key(rest[0]) == Some(key@));
                                        assert(ini_current_from(rest, sec, key@, in_section) == Some(trim(crate::text::after(rest[0], '='))));
                                        return Some(string_of(trimmed(v.as_slice()).as_slice()));
                                    },
                                    None => {},
                                }
                            }
                        },
                        None => {},
                    }
                }
            },
        }
        i += 1;
    }
    None
}

/// Lines processed so far: whether the walk is inside the section, whether
/// the key has been written, and the lines out.
pub open spec fn ini_fold(ls: Seq<Seq<char>>, section: Option<Seq<char>>, key: Seq<char>, want: Seq<char>) -> (bool, bool, Seq<Seq<char>>)
    decreases ls.len(),
{
    if ls.len() == 0 {
        (section is None, false, Seq::empty())
    } else {
        let (ins, done, out) = ini_fold(ls.drop_last(), section, key, want);
        let l = ls.last();
        match header_name(l) {
            Some(n) => {
                let out2 = if ins && !done { out.push(want) } else { out };
                (section == Some(n), done || ins, out2.push(l))
            },
            None => if ins && !done && line_key(l) == Some(key) {
                (ins, true, out.push(want))
            } else {
                (ins, done, out.push(l))
            },
        }
    }
}

/// The lines after the key is ensured: written in place, at the end of its
/// section, or in a new section at the end (after a blank line when the
/// file does not already end with one).
pub open spec fn ini_lines(content: Seq<char>, section: Option<Seq<char>>, key: Seq<char>, value: Seq<char>) -> Seq<Seq<char>> {
    let want = key + seq!['='] + value;
    let (ins, done, out) = ini_fold(lines_of(content), section, key, want);
    if done {
        out
    } else if ins {
        out.push(want)
    } else {
        match section {
            Some(s) => {
                let sep = if out.len() > 0 && trim(out.last()).len() > 0 { out.push(Seq::empty()) } else { out };
                sep.push(seq!['['] + s + seq![']']).push(want)
            },
            None => out.push(want),
        }
    }
}

/// The file content with `key=value` ensured in `section`, each line ending
/// with a newline.
pub open spec fn ini_desired_spec(content: Seq<char>, section: Option<Seq<char>>, key: Seq<char>, value: Seq<char>) -> Seq<char> {
    crate::plan::join_with(ini_lines(content, section, key, value), seq!['\n']) + seq!['\n']
}

fn join_nl_exec(ls: &Vec<String>) -> (r: String)
    ensures
        r@ == crate::plan::join_with(str_views(ls@), seq!['\n']) + seq!['\n'],
{
    let ghost lv = str_views(ls@);
    let mut r = String::new();
    let mut i: usize = 0;
    while i < ls.len()
        invariant
            i <= ls@.len(),
            lv == str_views(ls@),
            r@ == crate::plan::join_with(lv.take(i as int), seq!['\n']),
        decreases ls.len() - i,
    {
        if i > 0 {
            push_char(&mut r, '\n');
        }
        push_str(&mut r, ls[i].as_str());
        proof {
            let t = lv.take(i as int + 1);
            assert(t.drop_last() =~= lv.take(i as int));
            assert(t.last() == ls@[i as int]@);
            if i == 0 {
                assert(lv.take(0) =~= Seq::<Seq<char>>::empty());
            }
        }
        i += 1;
    }
    assert(lv.take(lv.len() as int) =~= lv);
    push_char(&mut r, '\n');
    r
}

/// Ensures `key=value` in `section` of an INI file: replaces the key's line
/// in place, else adds it at the end of its section, else appends the
/// section.
pub fn ini_desired(content: &str, section: &Option<String>, key: &str, value: &str) -> (r: String)
    ensures
        r@ == ini_desired_spec(content@, match section {
            Some(s) => Some(s@),
            None => None,
        }, key@, value@),
{
    let mut want = String::new();
    push_str(&mut want, key);
    push_char(&mut want, '=');
    push_str(&mut want, value);
    let ls = lines(chars_of(content).as_slice());
    let ghost lv = lines_of(content@);
    let ghost sec = match section {
        Some(s) => Some(s@),
        None => None,
    };
    let kc = chars_of(key);
    let mut out: Vec<String> = Vec::new();
    let mut in_section = section.is_none();
    let mut done = false;
    let mut i: usize = 0;
    while i < ls.len()
        invariant
            i <= ls@.len(),
            views(ls@) == lv,
            lv == lines_of(content@),
            kc@ == key@,
            want@ == key@ + seq!['='] + value@,
            sec == match section {
                Some(s) => Some(s@),
                None => None::<Seq<char>>,
            },
            ini_fold(lv.take(i as int), sec, key@, want@) == (in_section, done, str_views(out@)),
        decreases ls.len() - i,
    {
        let ghost t = lv.take(i as int + 1);
        assert(t.drop_last() =~= lv.take(i as int));
        assert(t.last() == lv[i as int]);
        assert(lv[i as int] == ls@[i as int]@);
        let ghost before = str_views(out@);
        let line = string_of(ls[i].as_slice());
        match header_name_exec(ls[i].as_slice()) {
            Some(n) => {
                if in_section && !done {
                    out.push(text(want.as_str()));
                    done = true;
                }
                in_section = opt_eq(section, &Some(n));
                let ghost mid = str_views(out@);
                out.push(line);
                assert(str_views(out@) =~= mid.push(lv[i as int]));
                proof {
                    if before.len() < mid.len() {
                        assert(mid =~= before.push(want@));
                    } else {
                        assert(mid =~= before);
                    }
                }
            },
            None => {
                let mut replaced = false;
                if in_section && !done {
                    match line_key_exec(ls[i].as_slice()) {
                        Some(k) => {
                            if same(k.as_slice(), kc.as_slice()) {
                                out.push(text(want.as_str()));
                                done = true;
                                replaced = true;
                                assert(str_views(out@) =~= before.push(want@));
                            }
                        },
                        None => {},
                    }
                }
                if !replaced {
                    out.push(line);
                    assert(str_views(out@) =~= before.push(lv[i as int]));
                }
            },
        }
        i += 1;
    }
    assert(lv.take(lv.len() as int) =~= lv);
    let ghost folded = str_views(out@);
    if !done {
        if in_section {
            out.push(want);
            assert(str_views(out@) =~= folded.push(key@ + seq!['='] + value@));
        } else {
            match section {
                Some(s) => {
                    let n = out.len();
                    if n > 0 && trimmed(chars_of(out[n - 1].as_str()).as_slice()).len() > 0 {
                        out.push(String::new());
                    }
                    let ghost sep = str_views(out@);
                    let mut h = String::new();
                    push_char(&mut h, '[');
                    push_str(&mut h, s.as_str());
                    push_char(&mut h, ']');
                    assert(h@ =~= seq!['['] + s@ + seq![']']);
                    let ghost hv = h@;
                    let ghost wv = want@;
                    out.push(h);
                    out.push(want);
                    assert(str_views(out@) =~= sep.push(hv).push(wv));
                    proof {
                        if n > 0 && trim(folded.last()).len() > 0 {
                            assert(sep =~= folded.push(Seq::empty()));
                        } else {
                            assert(sep =~= folded);
                        }
                        assert(str_views(out@) =~= sep.push(seq!['['] + s@ + seq![']']).push(key@ + seq!['='] + value@));
                    }
                },
                None => {
                    out.push(want);
                    assert(str_views(out@) =~= folded.push(key@ + seq!['='] + value@));
                },
            }
        }
    }
    join_nl_exec(&out)
}

/// An INI-backed setkey's state: missing when the file is absent, else
/// whether the key already has the value (a `Section.Key` key names its
/// section).
pub fn ini_state(content: Option<&str>, key: &str, value: &str) -> (r: FileState)
    ensures
        content is None ==> r == FileState::Missing,
        content matches Some(c) ==> r == if ini_current_from(lines_of(c@), ini_split_spec(key@).0, ini_split_spec(key@).1, ini_split_spec(key@).0 is None) == Some(value@) {
            FileState::InSync
        } else {
            FileState::Drifted
        },
{
    match content {
        None => FileState::Missing,
        Some(c) => {
            let (sec, k) = ini_split(key);
            match ini_current(c, &sec, k.as_str()) {
                Some(v) => if same(chars_of(v.as_str()).as_slice(), chars_of(value).as_slice()) {
                    FileState::InSync
                } else {
                    FileState::Drifted
                },
                None => FileState::Drifted,
            }
        },
    }
}

/// A `setkey(defaults)` value as `defaults read` output is compared with
/// it: a bool, or any other value as its scalar text (a string as is,
/// anything else as TOML renders it).
#[derive(Debug, Clone, PartialEq, Eq)]
pub enum DefaultsWant {
    Bool(bool),
    Text(String),
}

/// Whether `defaults read` output matches the wanted value; `defaults`
/// stores bools as `1` and `0`, so `true` matches `1`, not `true`.
pub fn defaults_matches(have: &str, want: &DefaultsWant) -> (r: bool)
    ensures
        r == match want {
            DefaultsWant::Bool(b) => have@ == (if *b { "1"@ } else { "0"@ }),
            DefaultsWant::Text(t) => have@ == t@,
        },
{
    match want {
        DefaultsWant::Bool(b) => {
            if *b {
                crate::plan::str_eq(have, "1")
            } else {
                crate::plan::str_eq(have, "0")
            }
        },
        DefaultsWant::Text(t) => crate::plan::str_eq(have, t.as_str()),
    }
}

proof fn lemma_sub_at_first(s: Seq<char>, p: Seq<char>, j: int)
    requires
        0 <= j && j + p.len() <= s.len(),
        s.subrange(j, j + p.len()) == p,
    ensures
        exists|i: int| crate::text::is_first_sub(s, p, i),
    decreases j,
{
    if exists|k: int| 0 <= k < j && #[trigger] s.subrange(k, k + p.len()) == p {
        let k = choose|k: int| 0 <= k < j && #[trigger] s.subrange(k, k + p.len()) == p;
        lemma_sub_at_first(s, p, k);
    } else {
        assert(crate::text::is_first_sub(s, p, j));
    }
}

proof fn lemma_contains_first_sub(s: Seq<char>, p: Seq<char>)
    requires
        contains(s, p),
    ensures
        first_sub(s, p) >= 0,
        crate::text::is_first_sub(s, p, first_sub(s, p)),
{
    let j = choose|j: int| 0 <= j && j + p.len() <= s.len() && #[trigger] s.subrange(j, j + p.len()) == p;
    lemma_sub_at_first(s, p, j);
}

proof fn lemma_first_sub_at(s: Seq<char>, p: Seq<char>, i: int)
    requires
        crate::text::is_first_sub(s, p, i),
    ensures
        crate::text::first_sub(s, p) == i,
{
    let k = crate::text::first_sub(s, p);
    assert(crate::text::is_first_sub(s, p, k));
    if k < i {
        assert(s.subrange(k, k + p.len()) != p);
    } else if i < k {
        assert(s.subrange(i, i + p.len()) != p);
    }
}

/// A well-formed marker region is replaced in place: when the begin marker
/// first occurs at `i`, the end marker first occurs at `j` after it, and
/// the body holds neither marker, the result keeps the text before `i`,
/// then holds the new region (begin marker, the body without its trailing
/// newlines, end marker, each on its own line), then everything that
/// followed the end marker, unchanged.
pub proof fn law_block_replaced_in_place(
    existing: Seq<char>,
    begin: Seq<char>,
    end: Seq<char>,
    body: Seq<char>,
    i: int,
    j: int,
)
    requires
        crate::text::is_first_sub(existing, begin, i),
        crate::text::is_first_sub(existing, end, j),
        i < j,
        !contains(body, begin),
        !contains(body, end),
    ensures
        block_desired_spec(existing, begin, end, body) matches Ok(out) && {
            let region = begin + seq!['\n'] + strip_trail(body, '\n') + seq!['\n'] + end;
            &&& out.take(i) == existing.take(i)
            &&& out.subrange(i, i + region.len()) == region
            &&& out.skip(i + region.len()) == existing.skip(j + end.len())
        },
{
    lemma_first_sub_at(existing, begin, i);
    lemma_first_sub_at(existing, end, j);
    let region = region_spec(begin, end, body);
    let out = existing.take(i) + region + existing.skip(j + end.len());
    assert(block_desired_spec(existing, begin, end, body) == Ok::<Seq<char>, bool>(out));
    assert(out.take(i) =~= existing.take(i));
    assert(out.subrange(i, i + region.len()) =~= region);
    assert(out.skip(i + region.len()) =~= existing.skip(j + end.len()));
}

/// Without a region, one is appended: when neither marker occurs in the
/// text and the body holds neither, the result is the text unchanged, its
/// last line ended and a blank line added (when it has any text), then the
/// new region and a newline.
pub proof fn law_block_appended_when_absent(existing: Seq<char>, begin: Seq<char>, end: Seq<char>, body: Seq<char>)
    requires
        !contains(existing, begin),
        !contains(existing, end),
        !contains(body, begin),
        !contains(body, end),
    ensures
        block_desired_spec(existing, begin, end, body) matches Ok(out) && {
            let region = begin + seq!['\n'] + strip_trail(body, '\n') + seq!['\n'] + end;
            let gap: Seq<char> = if existing.len() == 0 {
                Seq::empty()
            } else if existing.last() == '\n' {
                seq!['\n']
            } else {
                seq!['\n', '\n']
            };
            out == existing + gap + region + seq!['\n']
        },
{
    if crate::text::first_sub(existing, begin) >= 0 {
        let k = crate::text::first_sub(existing, begin);
        assert(crate::text::is_first_sub(existing, begin, k));
        assert(contains(existing, begin));
    }
    if crate::text::first_sub(existing, end) >= 0 {
        let k = crate::text::first_sub(existing, end);
        assert(crate::text::is_first_sub(existing, end, k));
        assert(contains(existing, end));
    }
    let region = region_spec(begin, end, body);
    let out = appended(existing, region);
    assert(block_desired_spec(existing, begin, end, body) == Ok::<Seq<char>, bool>(out));
    let gap: Seq<char> = if existing.len() == 0 {
        Seq::empty()
    } else if existing.last() == '\n' {
        seq!['\n']
    } else {
        seq!['\n', '\n']
    };
    assert(out =~= existing + gap + region + seq!['\n']);
}

/// A body that holds either marker is refused, whatever the text.
pub proof fn law_block_body_with_marker_refused(existing: Seq<char>, begin: Seq<char>, end: Seq<char>, body: Seq<char>)
    requires
        contains(body, begin) || contains(body, end),
    ensures
        block_desired_spec(existing, begin, end, body) == Err::<Seq<char>, bool>(true),
{
}

/// A malformed region is refused rather than rewritten: when only one
/// marker occurs, or the end marker first occurs before the begin marker.
pub proof fn law_block_malformed_refused(existing: Seq<char>, begin: Seq<char>, end: Seq<char>, body: Seq<char>)
    requires
        !contains(body, begin),
        !contains(body, end),
        contains(existing, begin) != contains(existing, end) || (contains(existing, begin) && contains(existing, end)
            && crate::text::first_sub(existing, end) <= crate::text::first_sub(existing, begin)),
    ensures
        block_desired_spec(existing, begin, end, body) == Err::<Seq<char>, bool>(false),
{
    let bs = crate::text::first_sub(existing, begin);
    let es = crate::text::first_sub(existing, end);
    if contains(existing, begin) {
        lemma_contains_first_sub(existing, begin);
    } else if bs >= 0 {
        assert(crate::text::is_first_sub(existing, begin, bs));
    }
    if contains(existing, end) {
        lemma_contains_first_sub(existing, end);
    } else if es >= 0 {
        assert(crate::text::is_first_sub(existing, end, es));
    }
}

} // verus!
