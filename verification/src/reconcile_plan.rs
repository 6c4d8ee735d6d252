//! The reconcile plan: from what the package tools reported, the candidates
//! to absorb into the machine's Brewfile or drop from it, and the tap-trust
//! candidates. Reading the tools is the caller's; deciding is here.
use vstd::prelude::*;
use crate::lists::{sort_strings, sorted_le};
use crate::manifest::{pairs_map, str_views, Ignore, Machine};
use crate::packages::{
    manager_str, match_name_spec, parse, parse_spec, Installed, Manager, Pkg, extras, pair_views, is_extra, extra_lt,
};
use crate::providers::{lookup, lookup_exec, mas_map, mas_names, without, filter_out, parse_remote, parse_remote_spec};
use crate::reconcile::{classify_brew, token_for, token_spec, AddItem, DconfPlan, ReconcilePlan};
use crate::text::{chars_of, lex_less, lex_lt, lemma_lex_irrefl, lemma_lex_trans, lines, lines_of, push_chars, push_str, same, string_of, trim, trimmed, views};

verus! {

broadcast use vstd::seq_lib::group_to_multiset_ensures;

/// An absorb candidate's view: manager, name, token, ignore list, ignore value.
pub type AddV = (Manager, Seq<char>, Seq<char>, Seq<char>, Seq<char>);

pub open spec fn add_view(a: AddItem) -> AddV {
    (a.manager, a.name@, a.token@, a.ignore_key@, a.ignore_value@)
}

pub open spec fn add_views(v: Seq<AddItem>) -> Seq<AddV> {
    v.map_values(|a: AddItem| add_view(a))
}

/// The tokens of a list of candidates.
pub open spec fn add_tokens_of(v: Seq<AddV>) -> Seq<Seq<char>> {
    v.map_values(|a: AddV| a.2)
}

/// The Brewfile line for a Mac App Store app: `mas "App", id: 123`.
pub open spec fn mas_token(app: Seq<char>, id: Seq<char>) -> Seq<char> {
    seq!['m', 'a', 's', ' ', '"'] + app + seq!['"', ',', ' ', 'i', 'd', ':', ' '] + id
}

/// The name a `mas list` gives an id, else the id itself.
pub open spec fn app_name(names: Map<Seq<char>, Seq<char>>, id: Seq<char>) -> Seq<char> {
    if names.dom().contains(id) {
        names[id]
    } else {
        id
    }
}

/// The candidate a naive extra becomes: mas, flatpak and vscode extras only
/// (the brew family comes from the dependency-aware cleanup instead).
pub open spec fn naive_add(p: (Manager, Seq<char>), names: Map<Seq<char>, Seq<char>>) -> Seq<AddV> {
    match p.0 {
        Manager::Mas => {
            let app = app_name(names, p.1);
            seq![(Manager::Mas, app, mas_token(app, p.1), manager_str(Manager::Mas), p.1)]
        },
        Manager::Flatpak | Manager::Vscode => seq![(p.0, p.1, token_spec(p.0, p.1), manager_str(p.0), p.1)],
        _ => Seq::empty(),
    }
}

pub open spec fn naive_adds(ps: Seq<(Manager, Seq<char>)>, names: Map<Seq<char>, Seq<char>>) -> Seq<AddV>
    decreases ps.len(),
{
    if ps.len() == 0 {
        Seq::empty()
    } else {
        naive_adds(ps.drop_last(), names) + naive_add(ps.last(), names)
    }
}

/// The fully qualified name the first row for `n` gives.
pub open spec fn first_full(rows: Seq<(String, String)>, n: Seq<char>) -> Option<Seq<char>>
    decreases rows.len(),
{
    if rows.len() == 0 {
        None
    } else if rows[0].0@ == n {
        Some(rows[0].1@)
    } else {
        first_full(rows.drop_first(), n)
    }
}

/// What `brew info` resolved a short name to: a cask before a same-named
/// formula.
pub open spec fn identity(casks: Seq<(String, String)>, formulae: Seq<(String, String)>, n: Seq<char>) -> Option<(Manager, Seq<char>)> {
    match first_full(casks, n) {
        Some(f) => Some((Manager::Cask, f)),
        None => match first_full(formulae, n) {
            Some(f) => Some((Manager::Brew, f)),
            None => None,
        },
    }
}

pub open spec fn classified(n: Seq<char>, inst: (Map<Manager, Set<Seq<char>>>, Set<Manager>)) -> Manager {
    if inst.0.dom().contains(Manager::Cask) && inst.0[Manager::Cask].contains(n) {
        Manager::Cask
    } else {
        Manager::Brew
    }
}

/// The candidate a brew-family extra becomes: a tap verbatim, anything else
/// by its resolved identity, else classified by the installed snapshot.
pub open spec fn brew_add(
    p: (Manager, Seq<char>),
    casks: Seq<(String, String)>,
    formulae: Seq<(String, String)>,
    inst: (Map<Manager, Set<Seq<char>>>, Set<Manager>),
) -> AddV {
    let mf: (Manager, Seq<char>) = if p.0 == Manager::Tap {
        (Manager::Tap, p.1)
    } else {
        match identity(casks, formulae, p.1) {
            Some(x) => x,
            None => (classified(p.1, inst), p.1),
        }
    };
    (mf.0, mf.1, token_spec(mf.0, mf.1), manager_str(mf.0), mf.1)
}

pub open spec fn brew_adds(
    ps: Seq<(Manager, Seq<char>)>,
    casks: Seq<(String, String)>,
    formulae: Seq<(String, String)>,
    inst: (Map<Manager, Set<Seq<char>>>, Set<Manager>),
) -> Seq<AddV> {
    ps.map_values(|p: (Manager, Seq<char>)| brew_add(p, casks, formulae, inst))
}

/// Candidate tokens never decrease.
pub open spec fn tokens_sorted(v: Seq<AddV>) -> bool {
    sorted_le(add_tokens_of(v))
}

/// The candidates, stably ordered by token.
pub fn sort_adds(v: Vec<AddItem>) -> (r: Vec<AddItem>)
    ensures
        tokens_sorted(add_views(r@)),
        add_views(r@).to_multiset() == add_views(v@).to_multiset(),
{
    let ghost all = v@;
    let n = v.len();
    let mut rest = v;
    let mut out: Vec<AddItem> = Vec::new();
    let mut i: usize = 0;
    while rest.len() > 0
        invariant
            i + rest@.len() == n,
            all.len() == n,
            rest@ == all.subrange(i as int, n as int),
            tokens_sorted(add_views(out@)),
            add_views(out@).to_multiset() == add_views(all.take(i as int)).to_multiset(),
        decreases rest.len(),
    {
        let x = rest.remove(0);
        let xc = chars_of(x.token.as_str());
        let ghost ov = add_views(out@);
        let ghost xv = add_view(x);
        let mut p: usize = 0;
        while p < out.len() && !lex_less(xc.as_slice(), chars_of(out[p].token.as_str()).as_slice())
            invariant
                p <= out@.len(),
                add_views(out@) == ov,
                xc@ == x.token@,
                xv == add_view(x),
                forall|j: int| 0 <= j < p ==> !lex_lt(xv.2, #[trigger] ov[j].2),
            decreases out.len() - p,
        {
            p += 1;
        }
        out.insert(p, x);
        proof {
            let nv = add_views(out@);
            assert(nv =~= ov.insert(p as int, xv));
            let nt = add_tokens_of(nv);
            let ot = add_tokens_of(ov);
            assert forall|a: int, b: int| 0 <= a < b < nt.len() implies !lex_lt(#[trigger] nt[b], #[trigger] nt[a]) by {
                assert(nt[a] == nv[a].2 && nt[b] == nv[b].2);
                if b < p {
                    assert(nv[a] == ov[a] && nv[b] == ov[b]);
                    assert(ot[a] == ov[a].2 && ot[b] == ov[b].2);
                } else if b == p {
                    assert(nv[a] == ov[a]);
                } else if a < p {
                    assert(nv[a] == ov[a] && nv[b] == ov[b - 1]);
                    assert(ot[a] == ov[a].2 && ot[b - 1] == ov[b - 1].2);
                } else if a == p {
                    assert(nv[b] == ov[b - 1]);
                    assert(lex_lt(xv.2, ov[p as int].2));
                    assert(ot[p as int] == ov[p as int].2 && ot[b - 1] == ov[b - 1].2);
                    if lex_lt(ov[b - 1].2, xv.2) {
                        lemma_lex_trans(ov[b - 1].2, xv.2, ov[p as int].2);
                        if b - 1 == p {
                            lemma_lex_irrefl(ov[p as int].2);
                        }
                    }
                } else {
                    assert(nv[a] == ov[a - 1] && nv[b] == ov[b - 1]);
                    assert(ot[a - 1] == ov[a - 1].2 && ot[b - 1] == ov[b - 1].2);
                }
            }
            assert(all[i as int] == x);
            assert(all.take(i as int + 1) =~= all.take(i as int).push(x));
            assert(add_views(all.take(i as int + 1)) =~= add_views(all.take(i as int)).push(xv));
            vstd::seq_lib::to_multiset_insert(ov, p as int, xv);
            vstd::seq_lib::to_multiset_build(add_views(all.take(i as int)), xv);
        }
        i += 1;
    }
    assert(all.take(n as int) =~= all);
    out
}

/// The first row for `n`, if any.
fn first_full_exec(rows: &[(String, String)], n: &String) -> (r: Option<String>)
    ensures
        match r {
            Some(f) => first_full(rows@, n@) == Some(f@),
            None => first_full(rows@, n@) is None,
        },
{
    let nc = chars_of(n.as_str());
    let mut i: usize = 0;
    assert(rows@.subrange(0, rows@.len() as int) =~= rows@);
    while i < rows.len()
        invariant
            i <= rows@.len(),
            nc@ == n@,
            first_full(rows@, n@) == first_full(rows@.subrange(i as int, rows@.len() as int), n@),
        decreases rows.len() - i,
    {
        let ghost s = rows@.subrange(i as int, rows@.len() as int);
        assert(s.drop_first() =~= rows@.subrange(i as int + 1, rows@.len() as int));
        assert(s[0] == rows@[i as int]);
        if same(chars_of(rows[i].0.as_str()).as_slice(), nc.as_slice()) {
            return Some(rows[i].1.clone());
        }
        i += 1;
    }
    None
}

/// The candidate for one naive extra, if it has one.
fn naive_item(m: Manager, name: &String, names: &[(String, String)]) -> (r: Option<AddItem>)
    requires
        crate::lists::distinct_keys(names@),
    ensures
        match r {
            Some(a) => naive_add((m, name@), pairs_map(names@)) == seq![add_view(a)],
            None => naive_add((m, name@), pairs_map(names@)) == Seq::<AddV>::empty(),
        },
{
    match m {
        Manager::Mas => {
            let app = match lookup_exec(names, name) {
                Some(a) => a.clone(),
                None => name.clone(),
            };
            let mut token = String::new();
            push_chars(&mut token, &['m', 'a', 's', ' ', '"']);
            push_str(&mut token, app.as_str());
            push_chars(&mut token, &['"', ',', ' ', 'i', 'd', ':', ' ']);
            push_str(&mut token, name.as_str());
            proof {
                assert(app@ == app_name(pairs_map(names@), name@));
                assert(token@ =~= mas_token(app@, name@));
            }
            Some(AddItem { manager: m, name: app, token, ignore_key: m.as_str(), ignore_value: name.clone() })
        },
        Manager::Flatpak | Manager::Vscode => Some(
            AddItem { manager: m, name: name.clone(), token: token_for(m, name.as_str()), ignore_key: m.as_str(), ignore_value: name.clone() },
        ),
        _ => None,
    }
}

/// The absorb candidates, by token: each mas, flatpak and vscode extra
/// (a mas app named from `mas list`), then each brew-family extra resolved
/// through `brew info`'s rows (casks first) or classified by the snapshot.
pub fn package_adds(
    naive: &[(Manager, String)],
    mas_list: &[String],
    brew_extras: &[(Manager, String)],
    casks: &[(String, String)],
    formulae: &[(String, String)],
    installed: &Installed,
) -> (r: Vec<AddItem>)
    ensures
        tokens_sorted(add_views(r@)),
        add_views(r@).to_multiset() == (naive_adds(pair_views(naive@), mas_map(str_views(mas_list@)))
            + brew_adds(pair_views(brew_extras@), casks@, formulae@, installed@)).to_multiset(),
{
    let names = mas_names(mas_list);
    let ghost nm = mas_map(str_views(mas_list@));
    let mut out: Vec<AddItem> = Vec::new();
    let mut i: usize = 0;
    while i < naive.len()
        invariant
            i <= naive@.len(),
            crate::lists::distinct_keys(names@),
            pairs_map(names@) == nm,
            add_views(out@) == naive_adds(pair_views(naive@).take(i as int), nm),
        decreases naive.len() - i,
    {
        let ghost t = pair_views(naive@).take(i as int + 1);
        assert(t.drop_last() =~= pair_views(naive@).take(i as int));
        assert(t.last() == (naive@[i as int].0, naive@[i as int].1@));
        match naive_item(naive[i].0, &naive[i].1, names.as_slice()) {
            Some(a) => {
                let ghost before = add_views(out@);
                out.push(a);
                assert(add_views(out@) =~= before + seq![add_view(a)]);
            },
            None => {
                assert(naive_adds(t, nm) =~= naive_adds(t.drop_last(), nm));
            },
        }
        i += 1;
    }
    assert(pair_views(naive@).take(naive@.len() as int) =~= pair_views(naive@));
    let ghost head = add_views(out@);
    let mut j: usize = 0;
    while j < brew_extras.len()
        invariant
            j <= brew_extras@.len(),
            add_views(out@) == head + brew_adds(pair_views(brew_extras@).take(j as int), casks@, formulae@, installed@),
        decreases brew_extras.len() - j,
    {
        let kind = brew_extras[j].0;
        let name = &brew_extras[j].1;
        let (m, full) = if kind == Manager::Tap {
            (Manager::Tap, name.clone())
        } else {
            match first_full_exec(casks, name) {
                Some(f) => (Manager::Cask, f),
                None => match first_full_exec(formulae, name) {
                    Some(f) => (Manager::Brew, f),
                    None => (classify_brew(name.as_str(), installed), name.clone()),
                },
            }
        };
        let item = AddItem { manager: m, name: full.clone(), token: token_for(m, full.as_str()), ignore_key: m.as_str(), ignore_value: full };
        let ghost before = add_views(out@);
        out.push(item);
        proof {
            let pv = (brew_extras@[j as int].0, brew_extras@[j as int].1@);
            assert(add_view(item) == brew_add(pv, casks@, formulae@, installed@));
            assert(pair_views(brew_extras@).take(j as int + 1) =~= pair_views(brew_extras@).take(j as int).push(pv));
            assert(add_views(out@) =~= before.push(add_view(item)));
            assert(brew_adds(pair_views(brew_extras@).take(j as int + 1), casks@, formulae@, installed@)
                =~= brew_adds(pair_views(brew_extras@).take(j as int), casks@, formulae@, installed@).push(add_view(item)));
        }
        j += 1;
    }
    assert(pair_views(brew_extras@).take(brew_extras@.len() as int) =~= pair_views(brew_extras@));
    sort_adds(out)
}

/// A token names a package whose manager was probed and did not report it.
pub open spec fn token_absent(t: Seq<char>, inst: (Map<Manager, Set<Seq<char>>>, Set<Manager>)) -> bool {
    match parse_spec(t) {
        Ok(p) => inst.0.dom().contains(p.0) && !inst.0[p.0].contains(match_name_spec(p.0, p.1, p.2)),
        Err(_) => false,
    }
}

/// A Brewfile line is a drop candidate: not blank, not a comment, and naming
/// a package that is absent.
pub open spec fn drop_line(l: Seq<char>, inst: (Map<Manager, Set<Seq<char>>>, Set<Manager>)) -> bool {
    let t = trim(l);
    t.len() > 0 && t[0] != '#' && token_absent(t, inst)
}

fn absent_exec(t: &str, installed: &Installed) -> (r: bool)
    ensures
        r == token_absent(t@, installed@),
{
    match parse(t) {
        Ok(p) => installed.probed(p.manager) && !installed.contains(p.manager, p.match_name().as_str()),
        Err(_) => false,
    }
}

/// The Brewfile lines, as written, whose package is declared but absent.
pub fn brewfile_drops(content: &str, installed: &Installed) -> (r: Vec<String>)
    ensures
        str_views(r@) == lines_of(content@).filter(|l: Seq<char>| drop_line(l, installed@)),
{
    let ls = lines(chars_of(content).as_slice());
    let mut out: Vec<String> = Vec::new();
    let mut i: usize = 0;
    while i < ls.len()
        invariant
            i <= ls@.len(),
            views(ls@) == lines_of(content@),
            str_views(out@) == views(ls@).take(i as int).filter(|l: Seq<char>| drop_line(l, installed@)),
        decreases ls.len() - i,
    {
        let t = trimmed(ls[i].as_slice());
        let keep = t.len() > 0 && t[0] != '#' && absent_exec(string_of(t.as_slice()).as_str(), installed);
        proof {
            let tk = views(ls@).take(i as int + 1);
            assert(tk.drop_last() =~= views(ls@).take(i as int));
            assert(tk.last() == ls@[i as int]@);
            reveal(Seq::filter);
            assert(keep == drop_line(ls@[i as int]@, installed@));
        }
        if keep {
            let ghost before = str_views(out@);
            out.push(string_of(ls[i].as_slice()));
            assert(str_views(out@) =~= before.push(ls@[i as int]@));
        }
        i += 1;
    }
    assert(views(ls@).take(ls@.len() as int) =~= views(ls@));
    out
}

/// The machine's own loose package tokens that parse and are absent.
pub fn machine_package_drops(tokens: &[String], installed: &Installed) -> (r: Vec<String>)
    ensures
        str_views(r@) == str_views(tokens@).filter(|t: Seq<char>| token_absent(t, installed@)),
{
    let mut out: Vec<String> = Vec::new();
    let mut i: usize = 0;
    while i < tokens.len()
        invariant
            i <= tokens@.len(),
            str_views(out@) == str_views(tokens@).take(i as int).filter(|t: Seq<char>| token_absent(t, installed@)),
        decreases tokens.len() - i,
    {
        let keep = absent_exec(tokens[i].as_str(), installed);
        proof {
            let tk = str_views(tokens@).take(i as int + 1);
            assert(tk.drop_last() =~= str_views(tokens@).take(i as int));
            assert(tk.last() == tokens@[i as int]@);
            reveal(Seq::filter);
        }
        if keep {
            let ghost before = str_views(out@);
            out.push(tokens[i].clone());
            assert(str_views(out@) =~= before.push(tokens@[i as int]@));
        }
        i += 1;
    }
    assert(str_views(tokens@).take(tokens@.len() as int) =~= str_views(tokens@));
    out
}

/// A declared remote token whose name no configured remote has.
pub open spec fn remote_unconfigured(t: Seq<char>, live: Seq<(String, String)>) -> bool {
    match parse_remote_spec(t) {
        Some(p) => !live.map_values(|q: (String, String)| q.0@).contains(p.0),
        None => false,
    }
}

/// The machine's own remote tokens that no configured remote answers:
/// nothing when it declares none or the remotes could not be listed.
pub fn machine_remote_drops(remotes: &[String], live: Option<Vec<(String, String)>>) -> (r: Vec<String>)
    ensures
        (remotes@.len() == 0 || live is None) ==> r@.len() == 0,
        remotes@.len() > 0 ==> (live matches Some(l) ==> str_views(r@) == str_views(remotes@).filter(|t: Seq<char>| remote_unconfigured(t, l@))),
{
    if remotes.len() == 0 {
        return Vec::new();
    }
    let l = match live {
        Some(l) => l,
        None => return Vec::new(),
    };
    let ghost names = l@.map_values(|q: (String, String)| q.0@);
    let mut out: Vec<String> = Vec::new();
    let mut i: usize = 0;
    while i < remotes.len()
        invariant
            i <= remotes@.len(),
            names == l@.map_values(|q: (String, String)| q.0@),
            str_views(out@) == str_views(remotes@).take(i as int).filter(|t: Seq<char>| remote_unconfigured(t, l@)),
        decreases remotes.len() - i,
    {
        let keep = match parse_remote(remotes[i].as_str()) {
            Some((n, _)) => {
                let nc = chars_of(n.as_str());
                let mut found = false;
                let mut k: usize = 0;
                while k < l.len()
                    invariant
                        k <= l@.len(),
                        nc@ == n@,
                        names == l@.map_values(|q: (String, String)| q.0@),
                        found == names.take(k as int).contains(n@),
                    decreases l.len() - k,
                {
                    let hit = same(chars_of(l[k].0.as_str()).as_slice(), nc.as_slice());
                    proof {
                        let a = names.take(k as int);
                        let b = names.take(k as int + 1);
                        assert(b =~= a.push(l@[k as int].0@));
                        if hit {
                            assert(b[k as int] == n@);
                        }
                        if b.contains(n@) {
                            let j = choose|j: int| 0 <= j < b.len() && b[j] == n@;
                            if j < k {
                                assert(a[j] == n@);
                            }
                        }
                        if a.contains(n@) {
                            let j = choose|j: int| 0 <= j < a.len() && a[j] == n@;
                            assert(b[j] == n@);
                        }
                    }
                    found = found || hit;
                    k += 1;
                }
                assert(names.take(l@.len() as int) =~= names);
                !found
            },
            None => false,
        };
        proof {
            let tk = str_views(remotes@).take(i as int + 1);
            assert(tk.drop_last() =~= str_views(remotes@).take(i as int));
            assert(tk.last() == remotes@[i as int]@);
            reveal(Seq::filter);
            assert(keep == remote_unconfigured(remotes@[i as int]@, l@));
        }
        if keep {
            let ghost before = str_views(out@);
            out.push(remotes[i].clone());
            assert(str_views(out@) =~= before.push(remotes@[i as int]@));
        }
        i += 1;
    }
    assert(str_views(remotes@).take(remotes@.len() as int) =~= str_views(remotes@));
    out
}


/// The trusted taps to absorb (trusted, not declared, not ignored) and the
/// machine's own declared taps to drop (declared, not trusted), each sorted:
/// nothing either way when the trust could not be read.
pub fn trust_candidates(trusted: &Option<Vec<String>>, brew_trust: &[String], ignore_tap: &[String], machine_trust: &[String]) -> (r: (Vec<String>, Vec<String>))
    ensures
        trusted is None ==> r.0@.len() == 0 && r.1@.len() == 0,
        trusted matches Some(t) ==> {
            &&& sorted_le(str_views(r.0@))
            &&& str_views(r.0@).to_multiset() == without(str_views(t@), str_views(brew_trust@), str_views(ignore_tap@)).to_multiset()
            &&& sorted_le(str_views(r.1@))
            &&& str_views(r.1@).to_multiset() == without(str_views(machine_trust@), str_views(t@), Seq::empty()).to_multiset()
        },
{
    match trusted {
        None => (Vec::new(), Vec::new()),
        Some(t) => {
            let none: Vec<String> = Vec::new();
            assert(str_views(none@) =~= Seq::<Seq<char>>::empty());
            let adds = sort_strings(filter_out(t.as_slice(), brew_trust, ignore_tap));
            let drops = sort_strings(filter_out(machine_trust, t.as_slice(), none.as_slice()));
            (adds, drops)
        },
    }
}

/// What the package tools reported, for the package half of a plan.
pub struct PackageReport {
    /// The machine's effective declared packages.
    pub effective: Vec<Pkg>,
    /// The installed snapshot those were probed against.
    pub installed: Installed,
    /// `mas list` rows.
    pub mas_list: Vec<String>,
    /// The dependency-aware brew-family extras.
    pub brew_extras: Vec<(Manager, String)>,
    /// `brew info` casks as `(token, full_token)`, in its order.
    pub casks: Vec<(String, String)>,
    /// `brew info` formulae as `(name, full_name)`, in its order.
    pub formulae: Vec<(String, String)>,
    /// The machine's Brewfile (empty when it does not exist yet).
    pub brewfile: String,
    /// The taps Homebrew trusts, when that could be read.
    pub trusted: Option<Vec<String>>,
}

/// The desktop half of a plan, each list computed by its provider.
pub struct DesktopCandidates {
    pub gext_adds: Vec<String>,
    pub gext_drops: Vec<String>,
    pub package_drops: Vec<String>,
    pub remote_adds: Vec<String>,
    pub remote_drops: Vec<String>,
    pub rpm_adds: Vec<String>,
    pub rpm_drops: Vec<String>,
    pub dconf: Vec<DconfPlan>,
}

/// Every installed-but-undeclared, not-ignored package.
pub open spec fn extra_set(declared: Seq<Pkg>, inst: (Map<Manager, Set<Seq<char>>>, Set<Manager>), ignore: Ignore) -> Set<(Manager, Seq<char>)> {
    Set::new(|p: (Manager, Seq<char>)| is_extra(p.0, p.1, declared, inst, ignore))
}

/// The package half of a plan is what the report gives.
pub open spec fn package_half(r: ReconcilePlan, machine: Machine, ignore: Ignore, brew_trust: Seq<String>, rep: PackageReport) -> bool {
    &&& tokens_sorted(add_views(r.adds@))
    &&& exists|x: Seq<(Manager, Seq<char>)>| #[trigger] x.no_duplicates() && x.to_set() == extra_set(rep.effective@, rep.installed@, ignore)
        && add_views(r.adds@).to_multiset() == (naive_adds(x, mas_map(str_views(rep.mas_list@)))
            + brew_adds(pair_views(rep.brew_extras@), rep.casks@, rep.formulae@, rep.installed@)).to_multiset()
    &&& str_views(r.drops@) == lines_of(rep.brewfile@).filter(|l: Seq<char>| drop_line(l, rep.installed@))
    &&& rep.trusted is None ==> r.trust_adds@.len() == 0 && r.trust_drops@.len() == 0
    &&& rep.trusted matches Some(t) ==> {
        &&& sorted_le(str_views(r.trust_adds@))
        &&& str_views(r.trust_adds@).to_multiset() == without(str_views(t@), str_views(brew_trust), str_views(ignore.tap@)).to_multiset()
        &&& sorted_le(str_views(r.trust_drops@))
        &&& str_views(r.trust_drops@).to_multiset() == without(str_views(machine.brew_trust@), str_views(t@), Seq::empty()).to_multiset()
    }
}

proof fn lemma_extras_witness(e: Seq<(Manager, String)>, declared: Seq<Pkg>, inst: (Map<Manager, Set<Seq<char>>>, Set<Manager>), ignore: Ignore)
    requires
        forall|i: int, j: int| 0 <= i < j < e.len() ==> extra_lt(#[trigger] pair_views(e)[i], #[trigger] pair_views(e)[j]),
        forall|i: int| 0 <= i < e.len() ==> is_extra((#[trigger] pair_views(e)[i]).0, pair_views(e)[i].1, declared, inst, ignore),
        forall|m: Manager, n: Seq<char>| #[trigger] is_extra(m, n, declared, inst, ignore) ==> exists|i: int| 0 <= i < e.len() && pair_views(e)[i] == (m, n),
    ensures
        pair_views(e).no_duplicates(),
        pair_views(e).to_set() == extra_set(declared, inst, ignore),
{
    let x = pair_views(e);
    assert forall|i: int, j: int| 0 <= i < x.len() && 0 <= j < x.len() && i != j implies x[i] != x[j] by {
        if i < j {
            assert(extra_lt(x[i], x[j]));
        } else {
            assert(extra_lt(x[j], x[i]));
        }
        lemma_lex_irrefl(x[i].1);
    }
    assert forall|p: (Manager, Seq<char>)| x.to_set().contains(p) <==> extra_set(declared, inst, ignore).contains(p) by {
        if x.contains(p) {
            let i = choose|i: int| 0 <= i < x.len() && x[i] == p;
            assert(is_extra(x[i].0, x[i].1, declared, inst, ignore));
        }
        if is_extra(p.0, p.1, declared, inst, ignore) {
            let i = choose|i: int| 0 <= i < e.len() && pair_views(e)[i] == (p.0, p.1);
            assert(x[i] == p);
        }
    }
    assert(x.to_set() =~= extra_set(declared, inst, ignore));
}

/// The reconcile plan. Without a machine Brewfile there is nowhere to absorb
/// a package, so the package half is empty and only the desktop half stands.
pub fn plan(machine: &Machine, ignore: &Ignore, brew_trust: &[String], report: PackageReport, desktop: DesktopCandidates) -> (r: ReconcilePlan)
    ensures
        r.brewfile_rel == machine.brewfile,
        r.gext_adds == desktop.gext_adds,
        r.gext_drops == desktop.gext_drops,
        r.package_drops == desktop.package_drops,
        r.remote_adds == desktop.remote_adds,
        r.remote_drops == desktop.remote_drops,
        r.rpm_adds == desktop.rpm_adds,
        r.rpm_drops == desktop.rpm_drops,
        r.dconf == desktop.dconf,
        machine.brewfile is None ==> r.adds@.len() == 0 && r.drops@.len() == 0 && r.trust_adds@.len() == 0 && r.trust_drops@.len() == 0,
        machine.brewfile is Some ==> package_half(r, *machine, *ignore, brew_trust@, report),
{
    let rel = match &machine.brewfile {
        None => {
            return ReconcilePlan {
                brewfile_rel: None,
                adds: Vec::new(),
                drops: Vec::new(),
                trust_adds: Vec::new(),
                trust_drops: Vec::new(),
                gext_adds: desktop.gext_adds,
                package_drops: desktop.package_drops,
                remote_adds: desktop.remote_adds,
                remote_drops: desktop.remote_drops,
                rpm_adds: desktop.rpm_adds,
                rpm_drops: desktop.rpm_drops,
                gext_drops: desktop.gext_drops,
                dconf: desktop.dconf,
            };
        },
        Some(b) => b.clone(),
    };
    let naive = extras(report.effective.as_slice(), &report.installed, ignore);
    proof {
        lemma_extras_witness(naive@, report.effective@, report.installed@, *ignore);
    }
    let adds = package_adds(naive.as_slice(), report.mas_list.as_slice(), report.brew_extras.as_slice(),
        report.casks.as_slice(), report.formulae.as_slice(), &report.installed);
    let drops = brewfile_drops(report.brewfile.as_str(), &report.installed);
    let (trust_adds, trust_drops) = trust_candidates(&report.trusted, brew_trust, ignore.tap.as_slice(), machine.brew_trust.as_slice());
    let r = ReconcilePlan {
        brewfile_rel: Some(rel),
        adds,
        drops,
        trust_adds,
        trust_drops,
        gext_adds: desktop.gext_adds,
        package_drops: desktop.package_drops,
        remote_adds: desktop.remote_adds,
        remote_drops: desktop.remote_drops,
        rpm_adds: desktop.rpm_adds,
        rpm_drops: desktop.rpm_drops,
        gext_drops: desktop.gext_drops,
        dconf: desktop.dconf,
    };
    proof {
        let x = pair_views(naive@);
        assert(x.no_duplicates() && x.to_set() == extra_set(report.effective@, report.installed@, *ignore));
    }
    r
}

} // verus!
