//! What a package converge and a prune hand to the package tools: the
//! Brewfiles they materialise, the flags and argv they pass, and which
//! packages each step covers. Running the tools is the caller's.
use vstd::prelude::*;
use crate::lists::{has_string, sort_strings, sorted_le};
use crate::manifest::{pairs_map, str_views, Ignore};
use crate::packages::{after_last, manager_str, Manager, Pkg};
use crate::providers::{lookup, lookup_exec};
use crate::text::{chars_of, push_chars, push_str};

verus! {

fn own(s: &str) -> (r: String)
    ensures
        r@ == s@,
{
    let mut r = String::new();
    push_str(&mut r, s);
    r
}

fn push_word(v: &mut Vec<String>, w: &str)
    ensures
        str_views(final(v)@) == str_views(old(v)@).push(w@),
{
    let ghost before = str_views(v@);
    v.push(own(w));
    assert(str_views(v@) =~= before.push(w@));
}

/// A manager `brew bundle` installs in a converge: formulae, casks, taps
/// and vscode extensions (mas is converged on its own).
pub open spec fn converge_bundled(m: Manager) -> bool {
    m == Manager::Brew || m == Manager::Cask || m == Manager::Tap || m == Manager::Vscode
}

/// A manager `brew bundle cleanup` acts on in a prune: the bundled ones and
/// mas.
pub open spec fn prune_bundled(m: Manager) -> bool {
    converge_bundled(m) || m == Manager::Mas
}

/// The tokens of the declarations a predicate picks, one per line.
pub open spec fn raw_lines(ps: Seq<Pkg>, pick: spec_fn(Manager) -> bool) -> Seq<char>
    decreases ps.len(),
{
    if ps.len() == 0 {
        Seq::empty()
    } else if pick(ps.last().manager) {
        raw_lines(ps.drop_last(), pick) + ps.last().raw@ + seq!['\n']
    } else {
        raw_lines(ps.drop_last(), pick)
    }
}

pub open spec fn any_picked(ps: Seq<Pkg>, pick: spec_fn(Manager) -> bool) -> bool {
    exists|i: int| 0 <= i < ps.len() && pick(#[trigger] ps[i].manager)
}

/// The picked declarations' tokens, one per line, and whether there was one.
fn picked_lines(effective: &[Pkg], prune: bool) -> (r: (String, bool))
    ensures
        prune ==> r.0@ == raw_lines(effective@, |m: Manager| prune_bundled(m)) && r.1 == any_picked(effective@, |m: Manager| prune_bundled(m)),
        !prune ==> r.0@ == raw_lines(effective@, |m: Manager| converge_bundled(m)) && r.1 == any_picked(effective@, |m: Manager| converge_bundled(m)),
{
    let ghost pick = if prune { |m: Manager| prune_bundled(m) } else { |m: Manager| converge_bundled(m) };
    let mut body = String::new();
    let mut any = false;
    let mut i: usize = 0;
    while i < effective.len()
        invariant
            i <= effective@.len(),
            pick == if prune { |m: Manager| prune_bundled(m) } else { |m: Manager| converge_bundled(m) },
            body@ == raw_lines(effective@.take(i as int), pick),
            any == exists|j: int| 0 <= j < i && pick(#[trigger] effective@[j].manager),
        decreases effective.len() - i,
    {
        let m = effective[i].manager;
        let take = m == Manager::Brew || m == Manager::Cask || m == Manager::Tap || m == Manager::Vscode
            || (prune && m == Manager::Mas);
        proof {
            let t = effective@.take(i as int + 1);
            assert(t.drop_last() =~= effective@.take(i as int));
            assert(t.last() == effective@[i as int]);
            assert(take == pick(effective@[i as int].manager));
        }
        if take {
            push_str(&mut body, effective[i].raw.as_str());
            push_chars(&mut body, &['\n']);
            any = true;
        }
        i += 1;
    }
    assert(effective@.take(effective@.len() as int) =~= effective@);
    (body, any)
}

/// The Brewfile a converge hands `brew bundle`: each formula, cask, tap and
/// vscode declaration's token, one per line; none when there is nothing for
/// it.
pub fn bundle_brewfile(effective: &[Pkg]) -> (r: Option<String>)
    ensures
        match r {
            Some(b) => any_picked(effective@, |m: Manager| converge_bundled(m))
                && b@ == raw_lines(effective@, |m: Manager| converge_bundled(m)),
            None => !any_picked(effective@, |m: Manager| converge_bundled(m)),
        },
{
    let (body, any) = picked_lines(effective, false);
    if any {
        Some(body)
    } else {
        None
    }
}

/// `brew bundle`'s arguments before the Brewfile path: quiet unless verbose.
pub fn bundle_args(verbose: bool) -> (r: Vec<String>)
    ensures
        str_views(r@) == if verbose { seq!["bundle"@, "--file"@] } else { seq!["bundle"@, "--quiet"@, "--file"@] },
{
    let mut v: Vec<String> = Vec::new();
    push_word(&mut v, "bundle");
    if !verbose {
        push_word(&mut v, "--quiet");
    }
    push_word(&mut v, "--file");
    v
}

/// The names of the declarations of one manager, in order.
pub open spec fn names_for(ps: Seq<Pkg>, m: Manager) -> Seq<Seq<char>>
    decreases ps.len(),
{
    if ps.len() == 0 {
        Seq::empty()
    } else if ps.last().manager == m {
        names_for(ps.drop_last(), m).push(ps.last().name@)
    } else {
        names_for(ps.drop_last(), m)
    }
}

/// `flatpak install -y --noninteractive <id>…` for the declared flatpaks;
/// none when there are none.
pub fn flatpak_install_argv(effective: &[Pkg]) -> (r: Option<Vec<String>>)
    ensures
        names_for(effective@, Manager::Flatpak).len() == 0 ==> r is None,
        names_for(effective@, Manager::Flatpak).len() > 0 ==> (r matches Some(v)
            && str_views(v@) == seq!["install"@, "-y"@, "--noninteractive"@] + names_for(effective@, Manager::Flatpak)),
{
    let mut v: Vec<String> = Vec::new();
    push_word(&mut v, "install");
    push_word(&mut v, "-y");
    push_word(&mut v, "--noninteractive");
    let ghost base = str_views(v@);
    assert(base =~= seq!["install"@, "-y"@, "--noninteractive"@]);
    let mut any = false;
    let mut i: usize = 0;
    while i < effective.len()
        invariant
            i <= effective@.len(),
            str_views(v@) == base + names_for(effective@.take(i as int), Manager::Flatpak),
            any == (names_for(effective@.take(i as int), Manager::Flatpak).len() > 0),
        decreases effective.len() - i,
    {
        proof {
            let t = effective@.take(i as int + 1);
            assert(t.drop_last() =~= effective@.take(i as int));
            assert(t.last() == effective@[i as int]);
        }
        if effective[i].manager == Manager::Flatpak {
            push_word(&mut v, effective[i].name.as_str());
            any = true;
        }
        i += 1;
    }
    assert(effective@.take(effective@.len() as int) =~= effective@);
    if any {
        Some(v)
    } else {
        None
    }
}

/// What a mas declaration is keyed by: its id, else its name.
pub open spec fn mas_key(p: Pkg) -> Seq<char> {
    match p.id {
        Some(i) => i@,
        None => p.name@,
    }
}

/// The declared App Store apps `mas list` does not show, by id (or name).
pub open spec fn mas_todo_spec(ps: Seq<Pkg>, present: Map<Seq<char>, Seq<char>>) -> Seq<Seq<char>>
    decreases ps.len(),
{
    if ps.len() == 0 {
        Seq::empty()
    } else if ps.last().manager == Manager::Mas && !present.dom().contains(mas_key(ps.last())) {
        mas_todo_spec(ps.drop_last(), present).push(mas_key(ps.last()))
    } else {
        mas_todo_spec(ps.drop_last(), present)
    }
}

/// The App Store apps still to install: each mas declaration whose id (or
/// name) is not among the ids `mas list` gave.
pub fn mas_todo(effective: &[Pkg], present: &[(String, String)]) -> (r: Vec<String>)
    requires
        crate::lists::distinct_keys(present@),
    ensures
        str_views(r@) == mas_todo_spec(effective@, pairs_map(present@)),
{
    let mut out: Vec<String> = Vec::new();
    let mut i: usize = 0;
    while i < effective.len()
        invariant
            i <= effective@.len(),
            crate::lists::distinct_keys(present@),
            str_views(out@) == mas_todo_spec(effective@.take(i as int), pairs_map(present@)),
        decreases effective.len() - i,
    {
        let p = &effective[i];
        proof {
            let t = effective@.take(i as int + 1);
            assert(t.drop_last() =~= effective@.take(i as int));
            assert(t.last() == *p);
        }
        if p.manager == Manager::Mas {
            let key = match &p.id {
                Some(id) => own(id.as_str()),
                None => own(p.name.as_str()),
            };
            if lookup_exec(present, &key).is_none() {
                let ghost before = str_views(out@);
                out.push(key);
                assert(str_views(out@) =~= before.push(mas_key(*p)));
            }
        }
        i += 1;
    }
    assert(effective@.take(effective@.len() as int) =~= effective@);
    out
}

// ---------------------------------------------------------------------------
// Prune.

/// `[ignore]` entries as Brewfile tokens, so cleanup keeps them: brew, cask,
/// tap, mas (keyed by id, which stands in for the name) and vscode.
pub open spec fn ignored_lines_spec(ig: Ignore) -> Seq<Seq<char>> {
    str_views(ig.brew@).map_values(|n: Seq<char>| "brew \""@ + n + "\""@)
        + str_views(ig.cask@).map_values(|n: Seq<char>| "cask \""@ + n + "\""@)
        + str_views(ig.tap@).map_values(|n: Seq<char>| "tap \""@ + n + "\""@)
        + str_views(ig.mas@).map_values(|n: Seq<char>| "mas \""@ + n + "\", id: "@ + n)
        + str_views(ig.vscode@).map_values(|n: Seq<char>| "vscode \""@ + n + "\""@)
}

fn push_tokens(out: &mut Vec<String>, names: &[String], head: &str, mas: bool)
    ensures
        mas ==> str_views(final(out)@) == str_views(old(out)@) + str_views(names@).map_values(|n: Seq<char>| head@ + n + "\", id: "@ + n),
        !mas ==> str_views(final(out)@) == str_views(old(out)@) + str_views(names@).map_values(|n: Seq<char>| head@ + n + "\""@),
{
    let ghost start = str_views(out@);
    let ghost f = if mas { |n: Seq<char>| head@ + n + "\", id: "@ + n } else { |n: Seq<char>| head@ + n + "\""@ };
    let mut i: usize = 0;
    while i < names.len()
        invariant
            i <= names@.len(),
            f == if mas { |n: Seq<char>| head@ + n + "\", id: "@ + n } else { |n: Seq<char>| head@ + n + "\""@ },
            str_views(out@) == start + str_views(names@).take(i as int).map_values(f),
        decreases names.len() - i,
    {
        let mut t = own(head);
        push_str(&mut t, names[i].as_str());
        if mas {
            push_str(&mut t, "\", id: ");
            push_str(&mut t, names[i].as_str());
        } else {
            push_str(&mut t, "\"");
        }
        assert(t@ == f(names@[i as int]@));
        let ghost before = str_views(out@);
        out.push(t);
        assert(str_views(out@) =~= before.push(f(names@[i as int]@)));
        assert(str_views(names@).take(i as int + 1).map_values(f) =~= str_views(names@).take(i as int).map_values(f).push(f(names@[i as int]@)));
        i += 1;
    }
    assert(str_views(names@).take(names@.len() as int) =~= str_views(names@));
}

/// `[ignore]` rendered as Brewfile tokens.
pub fn ignored_brewfile_lines(ignore: &Ignore) -> (r: Vec<String>)
    ensures
        str_views(r@) == ignored_lines_spec(*ignore),
{
    let mut out: Vec<String> = Vec::new();
    push_tokens(&mut out, ignore.brew.as_slice(), "brew \"", false);
    push_tokens(&mut out, ignore.cask.as_slice(), "cask \"", false);
    push_tokens(&mut out, ignore.tap.as_slice(), "tap \"", false);
    push_tokens(&mut out, ignore.mas.as_slice(), "mas \"", true);
    push_tokens(&mut out, ignore.vscode.as_slice(), "vscode \"", false);
    assert(str_views(out@) =~= ignored_lines_spec(*ignore));
    out
}

/// Lines joined, each followed by a newline.
pub open spec fn with_newlines(ls: Seq<Seq<char>>) -> Seq<char>
    decreases ls.len(),
{
    if ls.len() == 0 {
        Seq::empty()
    } else {
        with_newlines(ls.drop_last()) + ls.last() + seq!['\n']
    }
}

/// The cleanup flag naming each manager: formula, cask, tap, mas, vscode.
pub open spec fn cleanup_flags_spec(ps: Seq<Pkg>) -> Seq<Seq<char>> {
    (if any_picked(ps, |m: Manager| m == Manager::Brew) { seq!["--formula"@] } else { Seq::empty() })
        + (if any_picked(ps, |m: Manager| m == Manager::Cask) { seq!["--cask"@] } else { Seq::empty() })
        + (if any_picked(ps, |m: Manager| m == Manager::Tap) { seq!["--tap"@] } else { Seq::empty() })
        + (if any_picked(ps, |m: Manager| m == Manager::Mas) { seq!["--mas"@] } else { Seq::empty() })
        + (if any_picked(ps, |m: Manager| m == Manager::Vscode) { seq!["--vscode"@] } else { Seq::empty() })
}

fn declares(effective: &[Pkg], m: Manager) -> (r: bool)
    ensures
        r == any_picked(effective@, |x: Manager| x == m),
{
    let mut i: usize = 0;
    while i < effective.len()
        invariant
            i <= effective@.len(),
            forall|j: int| 0 <= j < i ==> (#[trigger] effective@[j]).manager != m,
        decreases effective.len() - i,
    {
        if effective[i].manager == m {
            return true;
        }
        i += 1;
    }
    false
}

/// What `brew bundle cleanup --force` is handed in a prune: the Brewfile of
/// what may stay (the declared brew-family tokens, then every `[ignore]`
/// entry, so nothing ignored is removed) and one type flag per manager the
/// declaration uses, so the set removed is the spec's and not the
/// environment's. None when nothing brew-family is declared.
pub fn prune_cleanup(effective: &[Pkg], ignore: &Ignore) -> (r: Option<(String, Vec<String>)>)
    ensures
        !any_picked(effective@, |m: Manager| prune_bundled(m)) ==> r is None,
        any_picked(effective@, |m: Manager| prune_bundled(m)) ==> (r matches Some(x)
            && x.0@ == raw_lines(effective@, |m: Manager| prune_bundled(m)) + with_newlines(ignored_lines_spec(*ignore))
            && str_views(x.1@) == cleanup_flags_spec(effective@)),
{
    let (mut body, any) = picked_lines(effective, true);
    if !any {
        return None;
    }
    let ignored = ignored_brewfile_lines(ignore);
    let ghost start = body@;
    let mut i: usize = 0;
    while i < ignored.len()
        invariant
            i <= ignored@.len(),
            body@ == start + with_newlines(str_views(ignored@).take(i as int)),
        decreases ignored.len() - i,
    {
        push_str(&mut body, ignored[i].as_str());
        push_chars(&mut body, &['\n']);
        proof {
            let t = str_views(ignored@).take(i as int + 1);
            assert(t.drop_last() =~= str_views(ignored@).take(i as int));
            assert(t.last() == ignored@[i as int]@);
        }
        i += 1;
    }
    assert(str_views(ignored@).take(ignored@.len() as int) =~= str_views(ignored@));
    let mut flags: Vec<String> = Vec::new();
    let ghost f0 = str_views(flags@);
    if declares(effective, Manager::Brew) {
        push_word(&mut flags, "--formula");
    }
    if declares(effective, Manager::Cask) {
        push_word(&mut flags, "--cask");
    }
    if declares(effective, Manager::Tap) {
        push_word(&mut flags, "--tap");
    }
    if declares(effective, Manager::Mas) {
        push_word(&mut flags, "--mas");
    }
    if declares(effective, Manager::Vscode) {
        push_word(&mut flags, "--vscode");
    }
    assert(str_views(flags@) =~= cleanup_flags_spec(effective@));
    Some((body, flags))
}

/// The flatpak extras a prune removes: those the user scope lists; those it
/// does not are system-wide and stay (reported). When the user scope could
/// not be listed, none is removed.
#[derive(Debug, Clone, PartialEq, Eq)]
pub struct FlatpakPrune {
    pub remove: Vec<String>,
    pub system: Vec<String>,
    /// The extras could not be told apart, so none is removed.
    pub undetermined: bool,
}

pub open spec fn flatpak_extras(extras: Seq<(Manager, String)>) -> Seq<Seq<char>>
    decreases extras.len(),
{
    if extras.len() == 0 {
        Seq::empty()
    } else if extras.last().0 == Manager::Flatpak {
        flatpak_extras(extras.drop_last()).push(extras.last().1@)
    } else {
        flatpak_extras(extras.drop_last())
    }
}

/// Split the flatpak extras by scope.
pub fn flatpak_prune(extras: &[(Manager, String)], user_apps: Option<Vec<String>>) -> (r: FlatpakPrune)
    ensures
        flatpak_extras(extras@).len() == 0 ==> r.remove@.len() == 0 && r.system@.len() == 0 && !r.undetermined,
        flatpak_extras(extras@).len() > 0 ==> match user_apps {
            None => r.undetermined && r.remove@.len() == 0 && r.system@.len() == 0,
            Some(u) => !r.undetermined
                && str_views(r.remove@) == flatpak_extras(extras@).filter(|f: Seq<char>| str_views(u@).contains(f))
                && str_views(r.system@) == flatpak_extras(extras@).filter(|f: Seq<char>| !str_views(u@).contains(f)),
        },
{
    let mut all: Vec<String> = Vec::new();
    let mut i: usize = 0;
    while i < extras.len()
        invariant
            i <= extras@.len(),
            str_views(all@) == flatpak_extras(extras@.take(i as int)),
        decreases extras.len() - i,
    {
        proof {
            let t = extras@.take(i as int + 1);
            assert(t.drop_last() =~= extras@.take(i as int));
            assert(t.last() == extras@[i as int]);
        }
        if extras[i].0 == Manager::Flatpak {
            push_word(&mut all, extras[i].1.as_str());
        }
        i += 1;
    }
    assert(extras@.take(extras@.len() as int) =~= extras@);
    if all.len() == 0 {
        return FlatpakPrune { remove: Vec::new(), system: Vec::new(), undetermined: false };
    }
    let u = match user_apps {
        None => return FlatpakPrune { remove: Vec::new(), system: Vec::new(), undetermined: true },
        Some(u) => u,
    };
    let mut mine: Vec<String> = Vec::new();
    let mut theirs: Vec<String> = Vec::new();
    let mut j: usize = 0;
    while j < all.len()
        invariant
            j <= all@.len(),
            str_views(mine@) == str_views(all@).take(j as int).filter(|f: Seq<char>| str_views(u@).contains(f)),
            str_views(theirs@) == str_views(all@).take(j as int).filter(|f: Seq<char>| !str_views(u@).contains(f)),
        decreases all.len() - j,
    {
        let is_user = has_string(u.as_slice(), all[j].as_str());
        proof {
            let t = str_views(all@).take(j as int + 1);
            assert(t.drop_last() =~= str_views(all@).take(j as int));
            assert(t.last() == all@[j as int]@);
            reveal(Seq::filter);
        }
        if is_user {
            push_word(&mut mine, all[j].as_str());
        } else {
            push_word(&mut theirs, all[j].as_str());
        }
        j += 1;
    }
    assert(str_views(all@).take(all@.len() as int) =~= str_views(all@));
    FlatpakPrune { remove: mine, system: theirs, undetermined: false }
}

// ---------------------------------------------------------------------------
// Casks that need root.

/// A tap-qualified token's short name, as `brew list` shows it.
pub open spec fn short_name(n: Seq<char>) -> Seq<char> {
    after_last(n, '/')
}

/// The declared casks a run would touch: not installed, or outdated (each
/// compared by its short name).
pub open spec fn cask_candidates_spec(ps: Seq<Pkg>, installed: Seq<Seq<char>>, outdated: Seq<Seq<char>>) -> Seq<Seq<char>>
    decreases ps.len(),
{
    if ps.len() == 0 {
        Seq::empty()
    } else {
        let rest = cask_candidates_spec(ps.drop_last(), installed, outdated);
        let p = ps.last();
        if p.manager == Manager::Cask && (!installed.contains(short_name(p.name@)) || outdated.contains(short_name(p.name@))) {
            rest.push(p.name@)
        } else {
            rest
        }
    }
}

/// The declared casks worth asking `brew info` about.
pub fn cask_candidates(effective: &[Pkg], installed: &[String], outdated: &[String]) -> (r: Vec<String>)
    ensures
        str_views(r@) == cask_candidates_spec(effective@, str_views(installed@), str_views(outdated@)),
{
    let mut out: Vec<String> = Vec::new();
    let mut i: usize = 0;
    while i < effective.len()
        invariant
            i <= effective@.len(),
            str_views(out@) == cask_candidates_spec(effective@.take(i as int), str_views(installed@), str_views(outdated@)),
        decreases effective.len() - i,
    {
        let p = &effective[i];
        proof {
            let t = effective@.take(i as int + 1);
            assert(t.drop_last() =~= effective@.take(i as int));
            assert(t.last() == *p);
        }
        if p.manager == Manager::Cask {
            let short = crate::drift::shell_basename(p.name.as_str());
            if !has_string(installed, short.as_str()) || has_string(outdated, short.as_str()) {
                push_word(&mut out, p.name.as_str());
            }
        }
        i += 1;
    }
    assert(effective@.take(effective@.len() as int) =~= effective@);
    out
}

/// The casks `brew info` says need root (a `pkg` or `installer` artifact),
/// given as `(token, needs root)` rows, sorted.
pub fn casks_needing_root(rows: &[(String, bool)]) -> (r: Vec<String>)
    ensures
        sorted_le(str_views(r@)),
        str_views(r@).to_multiset() == rows@.filter(|x: (String, bool)| x.1).map_values(|x: (String, bool)| x.0@).to_multiset(),
{
    let mut need: Vec<String> = Vec::new();
    let mut i: usize = 0;
    while i < rows.len()
        invariant
            i <= rows@.len(),
            str_views(need@) == rows@.take(i as int).filter(|x: (String, bool)| x.1).map_values(|x: (String, bool)| x.0@),
        decreases rows.len() - i,
    {
        proof {
            let t = rows@.take(i as int + 1);
            assert(t.drop_last() =~= rows@.take(i as int));
            assert(t.last() == rows@[i as int]);
            reveal(Seq::filter);
        }
        if rows[i].1 {
            let ghost before = rows@.take(i as int).filter(|x: (String, bool)| x.1);
            push_word(&mut need, rows[i].0.as_str());
            assert(rows@.take(i as int + 1).filter(|x: (String, bool)| x.1) =~= before.push(rows@[i as int]));
            assert(before.push(rows@[i as int]).map_values(|x: (String, bool)| x.0@) =~= before.map_values(|x: (String, bool)| x.0@).push(rows@[i as int].0@));
        } else {
            assert(rows@.take(i as int + 1).filter(|x: (String, bool)| x.1) =~= rows@.take(i as int).filter(|x: (String, bool)| x.1));
        }
        i += 1;
    }
    assert(rows@.take(rows@.len() as int) =~= rows@);
    sort_strings(need)
}

/// `l` stands as a line of its own in `text`: at the start or after a
/// newline, and followed by one.
pub open spec fn has_line(text: Seq<char>, l: Seq<char>) -> bool {
    exists|p: int|
        0 <= p && p + l.len() + 1 <= text.len() && #[trigger] text.subrange(p, p + l.len() + 1) == l + seq!['\n'] && (p == 0
            || text[p - 1] == '\n')
}

proof fn lemma_with_newlines_lines(ls: Seq<Seq<char>>, k: int)
    requires
        0 <= k < ls.len(),
    ensures
        has_line(with_newlines(ls), ls[k]),
        with_newlines(ls).len() > 0 && with_newlines(ls).last() == '\n',
    decreases ls.len(),
{
    let pre = ls.drop_last();
    let w0 = with_newlines(pre);
    let w = with_newlines(ls);
    assert(w == w0 + ls.last() + seq!['\n']);
    if k == ls.len() - 1 {
        let p = w0.len() as int;
        assert(w.subrange(p, p + ls[k].len() + 1) =~= ls[k] + seq!['\n']);
        if pre.len() > 0 {
            lemma_with_newlines_lines(pre, 0);
            assert(w[p - 1] == w0.last());
        }
    } else {
        assert(pre[k] == ls[k]);
        lemma_with_newlines_lines(pre, k);
        let p = choose|p: int|
            0 <= p && p + ls[k].len() + 1 <= w0.len() && #[trigger] w0.subrange(p, p + ls[k].len() + 1) == ls[k] + seq!['\n']
                && (p == 0 || w0[p - 1] == '\n');
        assert(w.subrange(p, p + ls[k].len() + 1) =~= w0.subrange(p, p + ls[k].len() + 1));
        if p > 0 {
            assert(w[p - 1] == w0[p - 1]);
        }
    }
    assert(w.last() == '\n');
}

proof fn lemma_raw_lines_end(ps: Seq<Pkg>, pick: spec_fn(Manager) -> bool)
    ensures
        raw_lines(ps, pick).len() == 0 || raw_lines(ps, pick).last() == '\n',
    decreases ps.len(),
{
    if ps.len() > 0 {
        lemma_raw_lines_end(ps.drop_last(), pick);
    }
}

proof fn lemma_line_after(r: Seq<char>, w: Seq<char>, l: Seq<char>)
    requires
        r.len() == 0 || r.last() == '\n',
        has_line(w, l),
    ensures
        has_line(r + w, l),
{
    let p = choose|p: int|
        0 <= p && p + l.len() + 1 <= w.len() && #[trigger] w.subrange(p, p + l.len() + 1) == l + seq!['\n'] && (p == 0
            || w[p - 1] == '\n');
    let q = r.len() + p;
    assert((r + w).subrange(q, q + l.len() + 1) =~= w.subrange(p, p + l.len() + 1));
    if p > 0 {
        assert((r + w)[q - 1] == w[p - 1]);
    } else if r.len() > 0 {
        assert((r + w)[q - 1] == r.last());
    }
}

/// Nothing `[ignore]` names is removed by a prune: in the Brewfile the
/// cleanup is handed (the declared brew-family lines, then the ignore
/// entries), every name an ignore list of a brew-family manager holds has
/// its Brewfile token on a line of its own, `cask "n"` for an ignored cask
/// and likewise for brew, tap and vscode, and `mas "n", id: n` for mas.
pub proof fn law_ignored_entries_stay_in_the_prune_file(effective: Seq<Pkg>, ig: Ignore, i: int)
    ensures
        ({
            let file = raw_lines(effective, |m: Manager| prune_bundled(m)) + with_newlines(ignored_lines_spec(ig));
            &&& 0 <= i < ig.brew@.len() ==> has_line(file, crate::reconcile::token_spec(Manager::Brew, ig.brew@[i]@))
            &&& 0 <= i < ig.cask@.len() ==> has_line(file, crate::reconcile::token_spec(Manager::Cask, ig.cask@[i]@))
            &&& 0 <= i < ig.tap@.len() ==> has_line(file, crate::reconcile::token_spec(Manager::Tap, ig.tap@[i]@))
            &&& 0 <= i < ig.vscode@.len() ==> has_line(file, crate::reconcile::token_spec(Manager::Vscode, ig.vscode@[i]@))
            &&& 0 <= i < ig.mas@.len() ==> has_line(file, "mas \""@ + ig.mas@[i]@ + "\", id: "@ + ig.mas@[i]@)
        }),
{
    let r = raw_lines(effective, |m: Manager| prune_bundled(m));
    let ls = ignored_lines_spec(ig);
    let b = str_views(ig.brew@).map_values(|n: Seq<char>| "brew \""@ + n + "\""@);
    let c = str_views(ig.cask@).map_values(|n: Seq<char>| "cask \""@ + n + "\""@);
    let t = str_views(ig.tap@).map_values(|n: Seq<char>| "tap \""@ + n + "\""@);
    let ma = str_views(ig.mas@).map_values(|n: Seq<char>| "mas \""@ + n + "\", id: "@ + n);
    let v = str_views(ig.vscode@).map_values(|n: Seq<char>| "vscode \""@ + n + "\""@);
    assert(ls == b + c + t + ma + v);
    lemma_raw_lines_end(effective, |m: Manager| prune_bundled(m));
    reveal_strlit("brew \"");
    reveal_strlit("cask \"");
    reveal_strlit("tap \"");
    reveal_strlit("vscode \"");
    reveal_strlit("\"");
    if 0 <= i < ig.brew@.len() {
        let n = ig.brew@[i]@;
        let k = i;
        assert(ls[k] == b[i]);
        assert(b[i] =~= crate::reconcile::token_spec(Manager::Brew, n));
        lemma_with_newlines_lines(ls, k);
        lemma_line_after(r, with_newlines(ls), ls[k]);
    }
    if 0 <= i < ig.cask@.len() {
        let n = ig.cask@[i]@;
        let k = b.len() + i;
        assert(ls[k] == c[i]);
        assert(c[i] =~= crate::reconcile::token_spec(Manager::Cask, n));
        lemma_with_newlines_lines(ls, k);
        lemma_line_after(r, with_newlines(ls), ls[k]);
    }
    if 0 <= i < ig.tap@.len() {
        let n = ig.tap@[i]@;
        let k = b.len() + c.len() + i;
        assert(ls[k] == t[i]);
        assert(t[i] =~= crate::reconcile::token_spec(Manager::Tap, n));
        lemma_with_newlines_lines(ls, k);
        lemma_line_after(r, with_newlines(ls), ls[k]);
    }
    if 0 <= i < ig.mas@.len() {
        let k = b.len() + c.len() + t.len() + i;
        assert(ls[k] == ma[i]);
        lemma_with_newlines_lines(ls, k);
        lemma_line_after(r, with_newlines(ls), ls[k]);
    }
    if 0 <= i < ig.vscode@.len() {
        let n = ig.vscode@[i]@;
        let k = b.len() + c.len() + t.len() + ma.len() + i;
        assert(ls[k] == v[i]);
        assert(v[i] =~= crate::reconcile::token_spec(Manager::Vscode, n));
        lemma_with_newlines_lines(ls, k);
        lemma_line_after(r, with_newlines(ls), ls[k]);
    }
}

/// The ignore entries a prune keeps are one line per name of the
/// brew-family ignore lists (brew, cask, tap, mas, vscode), no more.
pub proof fn law_ignored_lines_count(ig: Ignore)
    ensures
        ignored_lines_spec(ig).len() == ig.brew@.len() + ig.cask@.len() + ig.tap@.len() + ig.mas@.len() + ig.vscode@.len(),
{
}

} // verus!
