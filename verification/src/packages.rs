//! Package model: Brewfile-grammar tokens, an installed snapshot per manager,
//! and drift (missing / extras) between a declared set and what is installed.
use vstd::prelude::*;
use crate::manifest::{str_views, Ignore};
use crate::text::{
    after, before, chars_of, contains, find_char, find_sub, find_ws, first_index, first_sub,
    first_ws, has_char, has_ws, is_first, lex_less, lex_lt, lemma_lex_irrefl, lemma_lex_total,
    lemma_lex_trans, same, slice, string_of, take_digits, take_digits_exec, trim, trim_start,
    trimmed, trimmed_start, views, sorted_strs, insert_sorted, copy_chars, lemma_views_push,
};

verus! {

#[derive(Debug, Clone, Copy, PartialEq, Eq, Structural, Hash, PartialOrd, Ord)]
pub enum Manager {
    Brew,
    Cask,
    Tap,
    Flatpak,
    Mas,
    Vscode,
}

pub open spec fn manager_str(m: Manager) -> Seq<char> {
    match m {
        Manager::Brew => seq!['b', 'r', 'e', 'w'],
        Manager::Cask => seq!['c', 'a', 's', 'k'],
        Manager::Tap => seq!['t', 'a', 'p'],
        Manager::Flatpak => seq!['f', 'l', 'a', 't', 'p', 'a', 'k'],
        Manager::Mas => seq!['m', 'a', 's'],
        Manager::Vscode => seq!['v', 's', 'c', 'o', 'd', 'e'],
    }
}

/// Declaration order, which is how managers sort.
pub open spec fn manager_index(m: Manager) -> nat {
    match m {
        Manager::Brew => 0,
        Manager::Cask => 1,
        Manager::Tap => 2,
        Manager::Flatpak => 3,
        Manager::Mas => 4,
        Manager::Vscode => 5,
    }
}

pub open spec fn all_managers() -> Seq<Manager> {
    seq![Manager::Brew, Manager::Cask, Manager::Tap, Manager::Flatpak, Manager::Mas, Manager::Vscode]
}

impl Manager {
    /// Every manager, in declaration order.
    pub const ALL: [Manager; 6] = [
        Manager::Brew,
        Manager::Cask,
        Manager::Tap,
        Manager::Flatpak,
        Manager::Mas,
        Manager::Vscode,
    ];

    pub fn as_str(self) -> (r: &'static str)
        ensures
            r@ == manager_str(self),
    {
        match self {
            Manager::Brew => {
                let s = "brew";
                proof {
                    reveal_strlit("brew");
                }
                s
            },
            Manager::Cask => {
                let s = "cask";
                proof {
                    reveal_strlit("cask");
                }
                s
            },
            Manager::Tap => {
                let s = "tap";
                proof {
                    reveal_strlit("tap");
                }
                s
            },
            Manager::Flatpak => {
                let s = "flatpak";
                proof {
                    reveal_strlit("flatpak");
                }
                s
            },
            Manager::Mas => {
                let s = "mas";
                proof {
                    reveal_strlit("mas");
                }
                s
            },
            Manager::Vscode => {
                let s = "vscode";
                proof {
                    reveal_strlit("vscode");
                }
                s
            },
        }
    }

    /// Position in declaration order.
    pub fn index(self) -> (r: u8)
        ensures
            r == manager_index(self),
    {
        match self {
            Manager::Brew => 0,
            Manager::Cask => 1,
            Manager::Tap => 2,
            Manager::Flatpak => 3,
            Manager::Mas => 4,
            Manager::Vscode => 5,
        }
    }
}

/// The manager a Brewfile keyword names.
pub open spec fn manager_of(kind: Seq<char>) -> Option<Manager> {
    if kind == manager_str(Manager::Brew) {
        Some(Manager::Brew)
    } else if kind == manager_str(Manager::Cask) {
        Some(Manager::Cask)
    } else if kind == manager_str(Manager::Tap) {
        Some(Manager::Tap)
    } else if kind == manager_str(Manager::Flatpak) {
        Some(Manager::Flatpak)
    } else if kind == manager_str(Manager::Vscode) {
        Some(Manager::Vscode)
    } else if kind == manager_str(Manager::Mas) {
        Some(Manager::Mas)
    } else {
        None
    }
}

fn manager_of_exec(kind: &[char]) -> (r: Option<Manager>)
    ensures
        r == manager_of(kind@),
{
    if same(kind, &['b', 'r', 'e', 'w']) {
        Some(Manager::Brew)
    } else if same(kind, &['c', 'a', 's', 'k']) {
        Some(Manager::Cask)
    } else if same(kind, &['t', 'a', 'p']) {
        Some(Manager::Tap)
    } else if same(kind, &['f', 'l', 'a', 't', 'p', 'a', 'k']) {
        Some(Manager::Flatpak)
    } else if same(kind, &['v', 's', 'c', 'o', 'd', 'e']) {
        Some(Manager::Vscode)
    } else if same(kind, &['m', 'a', 's']) {
        Some(Manager::Mas)
    } else {
        None
    }
}

/// The journal provider name for a manager, or `None` when its installs are
/// not journaled (a tap is tapped, not installed).
pub fn journal_provider(m: Manager) -> (r: Option<&'static str>)
    ensures
        match r {
            Some(s) => m != Manager::Tap && s@ == manager_str(m),
            None => m == Manager::Tap,
        },
{
    match m {
        Manager::Tap => None,
        _ => Some(m.as_str()),
    }
}

/// The `[ignore]` list for a manager.
pub open spec fn ignore_list_spec(ignore: Ignore, m: Manager) -> Seq<String> {
    match m {
        Manager::Brew => ignore.brew@,
        Manager::Cask => ignore.cask@,
        Manager::Flatpak => ignore.flatpak@,
        Manager::Mas => ignore.mas@,
        Manager::Vscode => ignore.vscode@,
        Manager::Tap => ignore.tap@,
    }
}

/// The `[ignore]` list for a manager.
pub fn ignore_list(ignore: &Ignore, m: Manager) -> (r: &[String])
    ensures
        r@ == ignore_list_spec(*ignore, m),
{
    match m {
        Manager::Brew => ignore.brew.as_slice(),
        Manager::Cask => ignore.cask.as_slice(),
        Manager::Flatpak => ignore.flatpak.as_slice(),
        Manager::Mas => ignore.mas.as_slice(),
        Manager::Vscode => ignore.vscode.as_slice(),
        Manager::Tap => ignore.tap.as_slice(),
    }
}

/// What a Unicode lowercase mapping (`str::to_lowercase`) gives.
pub uninterp spec fn lowercase(s: Seq<char>) -> Seq<char>;

/// `str::to_lowercase`: the full Unicode lowercase mapping, which depends on
/// the text alone.
#[verifier::external_body]
pub(crate) fn to_lowercase(s: &str) -> (r: String)
    ensures
        r@ == lowercase(s@),
{
    s.to_lowercase()
}

/// A declared package: its manager, name, mas id, and the token it came from.
#[derive(Debug, Clone, PartialEq, Eq)]
pub struct Pkg {
    pub manager: Manager,
    pub name: String,
    pub id: Option<String>,
    pub raw: String,
}

/// The text after the last `c` (all of it when there is none).
pub open spec fn after_last(s: Seq<char>, c: char) -> Seq<char>
    decreases s.len(),
{
    if s.len() == 0 {
        s
    } else if s.last() == c {
        Seq::empty()
    } else {
        after_last(s.drop_last(), c).push(s.last())
    }
}

/// The name drift matches a declared package by: brew and cask without a tap
/// prefix, vscode lowercased, mas by numeric id.
pub open spec fn match_name_spec(m: Manager, name: Seq<char>, id: Option<Seq<char>>) -> Seq<char> {
    match m {
        Manager::Brew | Manager::Cask => after_last(name, '/'),
        Manager::Vscode => lowercase(name),
        Manager::Mas => match id {
            Some(i) => i,
            None => Seq::empty(),
        },
        Manager::Flatpak | Manager::Tap => name,
    }
}

pub open spec fn opt_view(o: Option<String>) -> Option<Seq<char>> {
    match o {
        Some(s) => Some(s@),
        None => None,
    }
}

pub(crate) fn after_last_exec(v: &[char], c: char) -> (r: Vec<char>)
    ensures
        r@ == after_last(v@, c),
{
    let mut i = v.len();
    assert(v@.subrange(0, v@.len() as int) =~= v@);
    assert(v@.subrange(v@.len() as int, v@.len() as int) =~= Seq::<char>::empty());
    assert(v@ + Seq::<char>::empty() =~= v@);
    while i > 0 && v[i - 1] != c
        invariant
            i <= v@.len(),
            after_last(v@, c) == after_last(v@.subrange(0, i as int), c) + v@.subrange(i as int, v@.len() as int),
        decreases i,
    {
        let ghost pre = v@.subrange(0, i as int);
        assert(pre.drop_last() =~= v@.subrange(0, i as int - 1));
        assert(after_last(pre, c) == after_last(pre.drop_last(), c).push(pre.last()));
        assert(after_last(v@.subrange(0, i as int - 1), c) + v@.subrange(i as int - 1, v@.len() as int)
            =~= after_last(pre.drop_last(), c).push(pre.last()) + v@.subrange(i as int, v@.len() as int));
        i -= 1;
    }
    assert(v@.subrange(0, v@.len() as int) =~= v@);
    assert(v@.subrange(v@.len() as int, v@.len() as int) =~= Seq::<char>::empty());
    if i == 0 {
        assert(after_last(v@.subrange(0, 0), c) =~= Seq::<char>::empty());
    } else {
        assert(after_last(v@.subrange(0, i as int), c) =~= Seq::<char>::empty());
    }
    let r = slice(v, i, v.len());
    assert(r@ =~= after_last(v@, c));
    r
}

impl Pkg {
    /// The name drift matches against an installed snapshot.
    pub fn match_name(&self) -> (r: String)
        ensures
            r@ == match_name_spec(self.manager, self.name@, opt_view(self.id)),
    {
        match self.manager {
            Manager::Brew | Manager::Cask => {
                let v = chars_of(self.name.as_str());
                string_of(after_last_exec(v.as_slice(), '/').as_slice())
            },
            Manager::Vscode => to_lowercase(self.name.as_str()),
            Manager::Mas => match &self.id {
                Some(i) => i.clone(),
                None => String::new(),
            },
            Manager::Flatpak | Manager::Tap => self.name.clone(),
        }
    }
}

/// Why a token did not parse.
#[derive(Debug, Clone, Copy, PartialEq, Eq, Structural)]
pub enum PkgError {
    /// No whitespace after the keyword.
    Malformed,
    /// No quoted name.
    NotQuoted,
    /// The quoted name never closes.
    Unterminated,
    /// Not one of the known keywords.
    UnknownType,
    /// A mas entry without `id:`.
    MasNeedsId,
    /// A mas entry whose `id:` has no digits.
    MasNoId,
}

/// The view of a parsed package: manager, name, mas id, trimmed token.
pub type PkgV = (Manager, Seq<char>, Option<Seq<char>>, Seq<char>);

pub open spec fn id_colon() -> Seq<char> {
    seq!['i', 'd', ':']
}

/// The text of a mas entry after its closing quote: its id, or why it has
/// none.
pub open spec fn mas_id_spec(after_name: Seq<char>) -> Result<Seq<char>, PkgError> {
    if !contains(after_name, id_colon()) {
        Err(PkgError::MasNeedsId)
    } else {
        let at = first_sub(after_name, id_colon());
        let ds = take_digits(trim_start(after_name.subrange(at + 3, after_name.len() as int)));
        if ds.len() == 0 {
            Err(PkgError::MasNoId)
        } else {
            Ok(ds)
        }
    }
}

/// One Brewfile-grammar token: `brew "x"`, `cask "y"`, `tap "u/r"`,
/// `flatpak "id"`, `vscode "ext"`, `mas "Name", id: 123`.
pub open spec fn parse_spec(line: Seq<char>) -> Result<PkgV, PkgError> {
    let t = trim(line);
    if !has_ws(t) {
        Err(PkgError::Malformed)
    } else {
        let w = first_ws(t);
        let kind = t.subrange(0, w);
        let rest = t.subrange(w + 1, t.len() as int);
        if !has_char(rest, '"') {
            Err(PkgError::NotQuoted)
        } else {
            let r2 = after(rest, '"');
            if !has_char(r2, '"') {
                Err(PkgError::Unterminated)
            } else {
                let name = before(r2, '"');
                match manager_of(kind) {
                    None => Err(PkgError::UnknownType),
                    Some(m) => if m == Manager::Mas {
                        match mas_id_spec(after(r2, '"')) {
                            Ok(id) => Ok((m, name, Some(id), t)),
                            Err(e) => Err(e),
                        }
                    } else {
                        Ok((m, name, None, t))
                    },
                }
            }
        }
    }
}

pub open spec fn pkg_view(p: Pkg) -> PkgV {
    (p.manager, p.name@, opt_view(p.id), p.raw@)
}

fn mas_id(after_name: &[char]) -> (r: Result<Vec<char>, PkgError>)
    ensures
        match r {
            Ok(v) => mas_id_spec(after_name@) == Ok::<Seq<char>, PkgError>(v@),
            Err(e) => mas_id_spec(after_name@) == Err::<Seq<char>, PkgError>(e),
        },
{
    let pat: [char; 3] = ['i', 'd', ':'];
    assert(pat@ =~= seq!['i', 'd', ':']);
    let n = after_name.len();
    match find_sub(after_name, &pat) {
        None => {
            assert(id_colon() =~= seq!['i', 'd', ':']);
            Err(PkgError::MasNeedsId)
        },
        Some(at) => {
            proof {
                assert(id_colon() =~= seq!['i', 'd', ':']);
                assert(contains(after_name@, id_colon())) by {
                    assert(after_name@.subrange(at as int, at + 3) == id_colon());
                }
            }
            assert(at + 3 <= n);
            let tail = slice(after_name, at + 3, n);
            let ds = take_digits_exec(trimmed_start(tail.as_slice()).as_slice());
            if ds.len() == 0 {
                Err(PkgError::MasNoId)
            } else {
                Ok(ds)
            }
        },
    }
}

/// Parse one Brewfile-grammar token.
pub fn parse(line: &str) -> (r: Result<Pkg, PkgError>)
    ensures
        match r {
            Ok(p) => parse_spec(line@) == Ok::<PkgV, PkgError>(pkg_view(p)),
            Err(e) => parse_spec(line@) == Err::<PkgV, PkgError>(e),
        },
{
    let v = chars_of(line);
    let t = trimmed(v.as_slice());
    let w = match find_ws(t.as_slice()) {
        Some(w) => w,
        None => return Err(PkgError::Malformed),
    };
    let kind = slice(t.as_slice(), 0, w);
    let tn = t.len();
    let rest = slice(t.as_slice(), w + 1, tn);
    let q1 = match find_char(rest.as_slice(), '"') {
        Some(q) => q,
        None => return Err(PkgError::NotQuoted),
    };
    let rn = rest.len();
    let r2 = slice(rest.as_slice(), q1 + 1, rn);
    assert(r2@ == after(rest@, '"'));
    let q2 = match find_char(r2.as_slice(), '"') {
        Some(q) => q,
        None => return Err(PkgError::Unterminated),
    };
    let name = slice(r2.as_slice(), 0, q2);
    assert(name@ == before(r2@, '"'));
    let m = match manager_of_exec(kind.as_slice()) {
        Some(m) => m,
        None => return Err(PkgError::UnknownType),
    };
    let id = if m == Manager::Mas {
        let r2n = r2.len();
        let after_name = slice(r2.as_slice(), q2 + 1, r2n);
        assert(after_name@ == after(r2@, '"'));
        match mas_id(after_name.as_slice()) {
            Ok(d) => Some(string_of(d.as_slice())),
            Err(e) => return Err(e),
        }
    } else {
        None
    };
    Ok(Pkg { manager: m, name: string_of(name.as_slice()), id, raw: string_of(t.as_slice()) })
}


/// The names each probed manager reported, a later report replacing an
/// earlier one.
pub open spec fn sets_of(v: Seq<(Manager, Vec<String>)>) -> Map<Manager, Set<Seq<char>>>
    decreases v.len(),
{
    if v.len() == 0 {
        Map::empty()
    } else {
        sets_of(v.drop_last()).insert(v.last().0, str_views(v.last().1@).to_set())
    }
}

/// A snapshot of what is installed, per manager, and which managers could
/// not be read.
pub struct Installed {
    by_manager: Vec<(Manager, Vec<String>)>,
    unavailable: Vec<Manager>,
}

impl View for Installed {
    /// Each probed manager's names, and the managers that failed to answer.
    type V = (Map<Manager, Set<Seq<char>>>, Set<Manager>);

    closed spec fn view(&self) -> (Map<Manager, Set<Seq<char>>>, Set<Manager>) {
        (sets_of(self.by_manager@), self.unavailable@.to_set())
    }
}

impl Default for Installed {
    fn default() -> (r: Installed)
        ensures
            r@.0 == Map::<Manager, Set<Seq<char>>>::empty(),
            r@.1 == Set::<Manager>::empty(),
    {
        let r = Installed { by_manager: Vec::new(), unavailable: Vec::new() };
        assert(r@.1 =~= Set::<Manager>::empty());
        r
    }
}

impl Installed {
    /// Record what a manager reported as installed.
    pub fn set(&mut self, m: Manager, names: Vec<String>)
        ensures
            final(self)@.0 == old(self)@.0.insert(m, str_views(names@).to_set()),
            final(self)@.1 == old(self)@.1,
    {
        let ghost before = self.by_manager@;
        self.by_manager.push((m, names));
        assert(self.by_manager@.drop_last() =~= before);
    }

    /// Record that this manager could not be read (it stays unprobed).
    pub fn unavailable(&mut self, m: Manager)
        ensures
            final(self)@.0 == old(self)@.0,
            final(self)@.1 == old(self)@.1.insert(m),
    {
        let ghost before = self.unavailable@;
        self.unavailable.push(m);
        proof {
            assert(self.unavailable@ == before.push(m));
            assert forall|x: Manager| self.unavailable@.to_set().contains(x) <==> before.to_set().insert(m).contains(x) by {
                if before.contains(x) {
                    let i = choose|i: int| 0 <= i < before.len() && before[i] == x;
                    assert(self.unavailable@[i] == x);
                }
                if self.unavailable@.contains(x) && x != m {
                    let i = choose|i: int| 0 <= i < self.unavailable@.len() && self.unavailable@[i] == x;
                    assert(before[i] == x);
                }
                if x == m {
                    assert(self.unavailable@[before.len() as int] == x);
                }
            }
            assert(self.unavailable@.to_set() =~= before.to_set().insert(m));
        }
    }

    /// Managers that were asked and could not answer, in manager order.
    pub fn unavailable_managers(&self) -> (r: Vec<Manager>)
        ensures
            r@ == all_managers().filter(|m: Manager| self@.1.contains(m)),
    {
        let all = Manager::ALL;
        let mut r: Vec<Manager> = Vec::new();
        let mut i: usize = 0;
        assert(all@ == all_managers());
        while i < 6
            invariant
                i <= 6,
                all@ == all_managers(),
                r@ == all_managers().take(i as int).filter(|m: Manager| self@.1.contains(m)),
            decreases 6 - i,
        {
            let m = all[i];
            let mut found = false;
            let mut j: usize = 0;
            while j < self.unavailable.len()
                invariant
                    j <= self.unavailable@.len(),
                    found == exists|q: int| 0 <= q < j && self.unavailable@[q] == m,
                decreases self.unavailable.len() - j,
            {
                if self.unavailable[j] == m {
                    found = true;
                }
                j += 1;
            }
            proof {
                let t = all_managers().take(i as int + 1);
                assert(t.drop_last() =~= all_managers().take(i as int));
                assert(t.last() == m);
                reveal(Seq::filter);
                assert(found == self@.1.contains(m));
            }
            if found {
                r.push(m);
            }
            i += 1;
        }
        assert(all_managers().take(6) =~= all_managers());
        r
    }

    /// The names last recorded for `m`, if it was probed.
    fn names_of(&self, m: Manager) -> (r: Option<&Vec<String>>)
        ensures
            match r {
                Some(v) => self@.0.dom().contains(m) && self@.0[m] == str_views(v@).to_set(),
                None => !self@.0.dom().contains(m),
            },
    {
        let mut i = self.by_manager.len();
        assert(self.by_manager@.take(self.by_manager@.len() as int) =~= self.by_manager@);
        while i > 0
            invariant
                i <= self.by_manager@.len(),
                sets_of(self.by_manager@).dom().contains(m) ==> sets_of(self.by_manager@.take(i as int)).dom().contains(m),
                sets_of(self.by_manager@).dom().contains(m) ==> sets_of(self.by_manager@)[m] == sets_of(self.by_manager@.take(i as int))[m],
                !sets_of(self.by_manager@).dom().contains(m) ==> !sets_of(self.by_manager@.take(i as int)).dom().contains(m),
            decreases i,
        {
            let ghost t = self.by_manager@.take(i as int);
            assert(t.drop_last() =~= self.by_manager@.take(i as int - 1));
            assert(t.last() == self.by_manager@[i as int - 1]);
            if self.by_manager[i - 1].0 == m {
                return Some(&self.by_manager[i - 1].1);
            }
            i -= 1;
        }
        None
    }

    /// Whether `m` reported `name` as installed.
    pub fn contains(&self, m: Manager, name: &str) -> (r: bool)
        ensures
            r == (self@.0.dom().contains(m) && self@.0[m].contains(name@)),
    {
        match self.names_of(m) {
            None => false,
            Some(v) => {
                let nm = chars_of(name);
                let mut j: usize = 0;
                while j < v.len()
                    invariant
                        j <= v@.len(),
                        nm@ == name@,
                        self@.0.dom().contains(m),
                        self@.0[m] == str_views(v@).to_set(),
                        forall|q: int| 0 <= q < j ==> (#[trigger] v@[q])@ != name@,
                    decreases v.len() - j,
                {
                    if same(chars_of(v[j].as_str()).as_slice(), nm.as_slice()) {
                        proof {
                            assert(str_views(v@)[j as int] == name@);
                            assert(str_views(v@).contains(name@));
                            assert(str_views(v@).to_set().contains(name@));
                        }
                        return true;
                    }
                    j += 1;
                }
                proof {
                    if str_views(v@).to_set().contains(name@) {
                        let q = choose|q: int| 0 <= q < str_views(v@).len() && str_views(v@)[q] == name@;
                        assert(v@[q]@ == name@);
                    }
                }
                false
            },
        }
    }

    /// Whether this manager was probed at all.
    pub fn probed(&self, m: Manager) -> (r: bool)
        ensures
            r == self@.0.dom().contains(m),
    {
        self.names_of(m).is_some()
    }
}

/// A declared package is missing: its manager was probed and did not report
/// its match name.
pub open spec fn is_missing(p: Pkg, inst: (Map<Manager, Set<Seq<char>>>, Set<Manager>)) -> bool {
    inst.0.dom().contains(p.manager) && !inst.0[p.manager].contains(
        match_name_spec(p.manager, p.name@, opt_view(p.id)),
    )
}

/// Declared packages not present in the installed snapshot, in declared
/// order. Only managers that were probed count.
pub fn missing<'a>(declared: &'a [Pkg], installed: &Installed) -> (r: Vec<&'a Pkg>)
    ensures
        r@.map_values(|p: &Pkg| *p) == declared@.filter(|p: Pkg| is_missing(p, installed@)),
{
    let mut out: Vec<&'a Pkg> = Vec::new();
    let mut i: usize = 0;
    while i < declared.len()
        invariant
            i <= declared@.len(),
            out@.map_values(|p: &Pkg| *p) == declared@.take(i as int).filter(|p: Pkg| is_missing(p, installed@)),
        decreases declared.len() - i,
    {
        let p = &declared[i];
        let keep = installed.probed(p.manager) && !installed.contains(p.manager, p.match_name().as_str());
        proof {
            let t = declared@.take(i as int + 1);
            assert(t.drop_last() =~= declared@.take(i as int));
            assert(t.last() == *p);
            reveal(Seq::filter);
            assert(keep == is_missing(*p, installed@));
        }
        if keep {
            let ghost before = out@;
            out.push(p);
            assert(out@.map_values(|q: &Pkg| *q) =~= before.map_values(|q: &Pkg| *q).push(*p));
        }
        i += 1;
    }
    assert(declared@.take(declared@.len() as int) =~= declared@);
    out
}


/// The names drift matches a manager's declared packages by.
pub open spec fn declared_names(declared: Seq<Pkg>, m: Manager) -> Set<Seq<char>> {
    Set::new(
        |n: Seq<char>|
            exists|i: int|
                0 <= i < declared.len() && declared[i].manager == m && match_name_spec(
                    m,
                    declared[i].name@,
                    opt_view(declared[i].id),
                ) == n,
    )
}

/// `n` is installed under `m`, not declared there, and not ignored.
pub open spec fn is_extra(
    m: Manager,
    n: Seq<char>,
    declared: Seq<Pkg>,
    inst: (Map<Manager, Set<Seq<char>>>, Set<Manager>),
    ignore: Ignore,
) -> bool {
    &&& inst.0.dom().contains(m)
    &&& inst.0[m].contains(n)
    &&& !declared_names(declared, m).contains(n)
    &&& !str_views(ignore_list_spec(ignore, m)).contains(n)
}

pub open spec fn extra_lt(a: (Manager, Seq<char>), b: (Manager, Seq<char>)) -> bool {
    manager_index(a.0) < manager_index(b.0) || (a.0 == b.0 && lex_lt(a.1, b.1))
}

pub open spec fn pair_views(v: Seq<(Manager, String)>) -> Seq<(Manager, Seq<char>)> {
    v.map_values(|p: (Manager, String)| (p.0, p.1@))
}

fn is_declared(declared: &[Pkg], m: Manager, n: &String) -> (r: bool)
    ensures
        r == declared_names(declared@, m).contains(n@),
{
    let mut i: usize = 0;
    while i < declared.len()
        invariant
            i <= declared@.len(),
            forall|q: int|
                0 <= q < i ==> !(declared@[q].manager == m && match_name_spec(
                    m,
                    declared@[q].name@,
                    opt_view(declared@[q].id),
                ) == n@),
        decreases declared.len() - i,
    {
        let p = &declared[i];
        if p.manager == m && p.match_name() == *n {
            assert(declared_names(declared@, m).contains(n@));
            return true;
        }
        i += 1;
    }
    false
}

fn is_listed(list: &[String], n: &String) -> (r: bool)
    ensures
        r == str_views(list@).contains(n@),
{
    let mut i: usize = 0;
    while i < list.len()
        invariant
            i <= list@.len(),
            forall|q: int| 0 <= q < i ==> (#[trigger] list@[q])@ != n@,
        decreases list.len() - i,
    {
        if list[i] == *n {
            assert(str_views(list@)[i as int] == n@);
            return true;
        }
        i += 1;
    }
    proof {
        if str_views(list@).contains(n@) {
            let q = choose|q: int| 0 <= q < str_views(list@).len() && str_views(list@)[q] == n@;
            assert(list@[q]@ == n@);
        }
    }
    false
}

/// Installed packages not declared and not ignored, per manager, ordered by
/// manager and then name.
pub fn extras(declared: &[Pkg], installed: &Installed, ignore: &Ignore) -> (r: Vec<(Manager, String)>)
    ensures
        forall|i: int, j: int|
            0 <= i < j < r@.len() ==> extra_lt(
                #[trigger] pair_views(r@)[i],
                #[trigger] pair_views(r@)[j],
            ),
        forall|i: int|
            0 <= i < r@.len() ==> is_extra(
                (#[trigger] pair_views(r@)[i]).0,
                pair_views(r@)[i].1,
                declared@,
                installed@,
                *ignore,
            ),
        forall|m: Manager, n: Seq<char>|
            #[trigger] is_extra(m, n, declared@, installed@, *ignore) ==> exists|i: int|
                0 <= i < r@.len() && pair_views(r@)[i] == (m, n),
{
    let all = Manager::ALL;
    assert(all@ == all_managers());
    let mut out: Vec<(Manager, String)> = Vec::new();
    let mut k: usize = 0;
    while k < 6
        invariant
            k <= 6,
            all@ == all_managers(),
            forall|i: int, j: int|
                0 <= i < j < out@.len() ==> extra_lt(
                    #[trigger] pair_views(out@)[i],
                    #[trigger] pair_views(out@)[j],
                ),
            forall|i: int|
                0 <= i < out@.len() ==> is_extra(
                    (#[trigger] pair_views(out@)[i]).0,
                    pair_views(out@)[i].1,
                    declared@,
                    installed@,
                    *ignore,
                ) && manager_index(pair_views(out@)[i].0) < k,
            forall|m: Manager, n: Seq<char>|
                #[trigger] is_extra(m, n, declared@, installed@, *ignore) && manager_index(m) < k
                    ==> exists|i: int| 0 <= i < out@.len() && pair_views(out@)[i] == (m, n),
        decreases 6 - k,
    {
        let m = all[k];
        assert(manager_index(m) == k);
        let ghost out0 = pair_views(out@);
        match installed.names_of(m) {
            None => {
                assert(pair_views(out@) == out0);
            },
            Some(v) => {
                let ign = ignore_list(ignore, m);
                let mut found: Vec<Vec<char>> = Vec::new();
                let mut j: usize = 0;
                assert(views(found@).to_set() =~= Set::<Seq<char>>::empty());
                while j < v.len()
                    invariant
                        j <= v@.len(),
                        installed@.0.dom().contains(m),
                        installed@.0[m] == str_views(v@).to_set(),
                        ign@ == ignore_list_spec(*ignore, m),
                        sorted_strs(views(found@)),
                        forall|n: Seq<char>|
                            #[trigger] views(found@).to_set().contains(n) <==> (str_views(v@).take(j as int).contains(n)
                                && is_extra(m, n, declared@, installed@, *ignore)),
                    decreases v.len() - j,
                {
                    let n = &v[j];
                    let keep = !is_declared(declared, m, n) && !is_listed(ign, n);
                    let ghost fs0 = views(found@).to_set();
                    proof {
                        assert(str_views(v@).take(j as int + 1) =~= str_views(v@).take(j as int).push(n@));
                        assert(str_views(v@).contains(n@)) by {
                            assert(str_views(v@)[j as int] == n@);
                        }
                        assert(keep == is_extra(m, n@, declared@, installed@, *ignore));
                    }
                    if keep {
                        insert_sorted(&mut found, chars_of(n.as_str()));
                    }
                    proof {
                        assert forall|x: Seq<char>|
                            #[trigger] views(found@).to_set().contains(x) <==> (str_views(v@).take(j as int + 1).contains(x)
                                && is_extra(m, x, declared@, installed@, *ignore)) by {
                            let t0 = str_views(v@).take(j as int);
                            let t1 = str_views(v@).take(j as int + 1);
                            if t1.contains(x) && !t0.contains(x) {
                                let q = choose|q: int| 0 <= q < t1.len() && t1[q] == x;
                                if q < t0.len() {
                                    assert(t0[q] == x);
                                }
                            }
                            if t0.contains(x) {
                                let q = choose|q: int| 0 <= q < t0.len() && t0[q] == x;
                                assert(t1[q] == x);
                            }
                            if x == n@ {
                                assert(t1[j as int] == x);
                            }
                        }
                    }
                    j += 1;
                }
                assert(str_views(v@).take(v@.len() as int) =~= str_views(v@));
                let mut q: usize = 0;
                while q < found.len()
                    invariant
                        q <= found@.len(),
                        sorted_strs(views(found@)),
                        installed@.0.dom().contains(m),
                        installed@.0[m] == str_views(v@).to_set(),
                        manager_index(m) == k,
                        forall|n: Seq<char>|
                            #[trigger] views(found@).to_set().contains(n) <==> is_extra(m, n, declared@, installed@, *ignore),
                        pair_views(out@) == out0 + views(found@).take(q as int).map_values(|n: Seq<char>| (m, n)),
                        forall|i: int| 0 <= i < out0.len() ==> manager_index((#[trigger] out0[i]).0) < k,
                        forall|i: int, j: int|
                            0 <= i < j < out0.len() ==> extra_lt(#[trigger] out0[i], #[trigger] out0[j]),
                        forall|i: int|
                            0 <= i < out0.len() ==> is_extra(
                                (#[trigger] out0[i]).0,
                                out0[i].1,
                                declared@,
                                installed@,
                                *ignore,
                            ),
                    decreases found.len() - q,
                {
                    let ghost before = pair_views(out@);
                    let nm = string_of(found[q].as_slice());
                    out.push((m, nm));
                    proof {
                        assert(pair_views(out@) =~= before.push((m, views(found@)[q as int])));
                        assert(views(found@).take(q as int + 1).map_values(|n: Seq<char>| (m, n))
                            =~= views(found@).take(q as int).map_values(|n: Seq<char>| (m, n)).push(
                            (m, views(found@)[q as int]),
                        ));
                    }
                    q += 1;
                }
                proof {
                    let pv = pair_views(out@);
                    let fv = views(found@);
                    assert(fv.take(fv.len() as int) =~= fv);
                    assert forall|i: int| 0 <= i < fv.len() implies is_extra(m, fv[i], declared@, installed@, *ignore) by {
                        assert(fv.to_set().contains(fv[i]));
                    }
                    assert forall|n: Seq<char>| #[trigger] is_extra(m, n, declared@, installed@, *ignore)
                        implies exists|i: int| 0 <= i < pv.len() && pv[i] == (m, n) by {
                        assert(fv.to_set().contains(n));
                        let fi = choose|fi: int| 0 <= fi < fv.len() && fv[fi] == n;
                        assert(pv[out0.len() + fi] == (m, n));
                    }
                    assert forall|i: int, j: int| 0 <= i < j < pv.len() implies extra_lt(#[trigger] pv[i], #[trigger] pv[j]) by {
                        if j < out0.len() {
                            assert(pv[i] == out0[i]);
                            assert(pv[j] == out0[j]);
                        } else if i < out0.len() {
                            assert(pv[i] == out0[i]);
                            assert(pv[j] == (m, fv[j - out0.len()]));
                        } else {
                            assert(pv[i] == (m, fv[i - out0.len()]));
                            assert(pv[j] == (m, fv[j - out0.len()]));
                        }
                    }
                }
            },
        }
        proof {
            let pv = pair_views(out@);
            assert forall|i: int| 0 <= i < pv.len() implies is_extra(
                (#[trigger] pv[i]).0,
                pv[i].1,
                declared@,
                installed@,
                *ignore,
            ) && manager_index(pv[i].0) < k + 1 by {
                if i < out0.len() {
                    assert(pv[i] == out0[i]);
                } else {
                    let fi = i - out0.len();
                }
            }
            assert forall|m2: Manager, n: Seq<char>|
                #[trigger] is_extra(m2, n, declared@, installed@, *ignore) && manager_index(m2) < k + 1
                    implies exists|i: int| 0 <= i < pv.len() && pv[i] == (m2, n) by {
                if manager_index(m2) < k {
                    let i = choose|i: int| 0 <= i < out0.len() && out0[i] == (m2, n);
                    assert(pv[i] == (m2, n));
                } else {
                    assert(m2 == m);
                    assert(is_extra(m, n, declared@, installed@, *ignore));
                }
            }
        }
        k += 1;
    }
    out
}

} // verus!
