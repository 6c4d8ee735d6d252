//! reconcile: spec ← machine capture. Absorb installed-but-undeclared extras
//! into the machine's Brewfile, drop declared-but-absent entries from it, and
//! gather the plan the CLI prompts over.
use vstd::prelude::*;
use crate::dconf::{diff_views, key_id, key_id_spec, KeyDiff};
use crate::manifest::{str_views, Machine};
use crate::packages::{
    is_missing, lowercase, manager_str, match_name_spec, opt_view, parse, parse_spec, to_lowercase,
    Installed, Manager, Pkg,
};
use crate::text::{
    chars_of, copy_chars, join_nl, lemma_views_push, lex_less, lex_lt, lines, lines_of, push_chars,
    push_str, same, string_of, trim, trim_start, trimmed, trimmed_start, views,
};

verus! {

/// An installed-but-undeclared package the user may absorb into the Brewfile.
#[derive(Debug, Clone, PartialEq, Eq)]
pub struct AddItem {
    pub manager: Manager,
    pub name: String,
    /// The Brewfile line to append if accepted.
    pub token: String,
    /// The `[ignore]` list this extra belongs to, and the value that list must
    /// hold to match it.
    pub ignore_key: &'static str,
    pub ignore_value: String,
}

/// One declared dconf snapshot's candidates, grouped by dump section.
#[derive(Debug, Clone, PartialEq, Eq)]
pub struct DconfPlan {
    /// Display name: the snapshot's label, else its dconf path.
    pub name: String,
    /// The snapshot file, relative to the temper-home.
    pub file_rel: String,
    /// Drifted keys grouped by section, both sorted.
    pub sections: Vec<(String, Vec<KeyDiff>)>,
}

/// What could be absorbed into or dropped from the spec, per list.
#[derive(Debug, Clone, PartialEq, Eq)]
pub struct ReconcilePlan {
    pub brewfile_rel: Option<String>,
    pub adds: Vec<AddItem>,
    pub drops: Vec<String>,
    pub trust_adds: Vec<String>,
    pub trust_drops: Vec<String>,
    pub gext_adds: Vec<String>,
    pub package_drops: Vec<String>,
    pub remote_adds: Vec<String>,
    pub remote_drops: Vec<String>,
    pub rpm_adds: Vec<String>,
    pub rpm_drops: Vec<String>,
    pub gext_drops: Vec<String>,
    pub dconf: Vec<DconfPlan>,
}

/// One candidate in a plan: the list it came from, whether accepting it adds
/// to the spec, and what it names.
#[derive(Debug, Clone, PartialEq, Eq)]
pub struct PlanItem {
    pub list: &'static str,
    pub adding: bool,
    pub target: String,
}

/// A plan item's view: list name, direction, target.
pub type ItemV = (Seq<char>, bool, Seq<char>);

pub open spec fn tagged(list: Seq<char>, adding: bool, xs: Seq<Seq<char>>) -> Seq<ItemV> {
    xs.map_values(|x: Seq<char>| (list, adding, x))
}

pub open spec fn add_tokens(adds: Seq<AddItem>) -> Seq<Seq<char>> {
    adds.map_values(|a: AddItem| a.token@)
}

/// The items of one section group of a snapshot's plan.
pub open spec fn section_items(name: Seq<char>, section: Seq<char>, keys: Seq<KeyDiff>) -> Seq<ItemV> {
    keys.map_values(
        |k: KeyDiff|
            ("dconf"@, k.live is Some, name + seq!['/'] + key_id_spec(section, k.key@)),
    )
}

pub open spec fn sections_items(name: Seq<char>, ss: Seq<(String, Vec<KeyDiff>)>) -> Seq<ItemV>
    decreases ss.len(),
{
    if ss.len() == 0 {
        Seq::empty()
    } else {
        sections_items(name, ss.drop_last()) + section_items(name, ss.last().0@, ss.last().1@)
    }
}

pub open spec fn dconf_items(ds: Seq<DconfPlan>) -> Seq<ItemV>
    decreases ds.len(),
{
    if ds.len() == 0 {
        Seq::empty()
    } else {
        dconf_items(ds.drop_last()) + sections_items(ds.last().name@, ds.last().sections@)
    }
}

/// Every candidate a plan carries, list by list.
pub open spec fn items_spec(p: ReconcilePlan) -> Seq<ItemV> {
    tagged("adds"@, true, add_tokens(p.adds@)) + tagged("drops"@, false, str_views(p.drops@))
        + tagged("trust_adds"@, true, str_views(p.trust_adds@)) + tagged(
        "trust_drops"@,
        false,
        str_views(p.trust_drops@),
    ) + tagged("gext_adds"@, true, str_views(p.gext_adds@)) + tagged(
        "gext_drops"@,
        false,
        str_views(p.gext_drops@),
    ) + tagged("package_drops"@, false, str_views(p.package_drops@)) + tagged(
        "remote_adds"@,
        true,
        str_views(p.remote_adds@),
    ) + tagged("remote_drops"@, false, str_views(p.remote_drops@)) + tagged(
        "rpm_adds"@,
        true,
        str_views(p.rpm_adds@),
    ) + tagged("rpm_drops"@, false, str_views(p.rpm_drops@)) + dconf_items(p.dconf@)
}

pub open spec fn item_views(v: Seq<PlanItem>) -> Seq<ItemV> {
    v.map_values(|i: PlanItem| (i.list@, i.adding, i.target@))
}

fn push_tagged(out: &mut Vec<PlanItem>, list: &'static str, adding: bool, xs: &Vec<String>)
    ensures
        item_views(final(out)@) == item_views(old(out)@) + tagged(list@, adding, str_views(xs@)),
{
    let ghost start = item_views(out@);
    let mut i: usize = 0;
    while i < xs.len()
        invariant
            i <= xs@.len(),
            item_views(out@) == start + tagged(list@, adding, str_views(xs@).take(i as int)),
        decreases xs.len() - i,
    {
        let t = xs[i].clone();
        let ghost before = item_views(out@);
        out.push(PlanItem { list, adding, target: t });
        proof {
            assert(item_views(out@) =~= before.push((list@, adding, xs@[i as int]@)));
            assert(tagged(list@, adding, str_views(xs@).take(i as int + 1)) =~= tagged(
                list@,
                adding,
                str_views(xs@).take(i as int),
            ).push((list@, adding, xs@[i as int]@)));
        }
        i += 1;
    }
    assert(str_views(xs@).take(xs@.len() as int) =~= str_views(xs@));
}

impl ReconcilePlan {
    /// Every candidate list a plan can carry, so that an empty one still
    /// appears in a plan document rather than vanishing.
    pub fn lists() -> (r: Vec<&'static str>)
        ensures
            r@.map_values(|l: &'static str| l@) == crate::reconcile_laws::declared_lists(),
    {
        let r = vec![
            "adds",
            "drops",
            "trust_adds",
            "trust_drops",
            "gext_adds",
            "gext_drops",
            "package_drops",
            "remote_adds",
            "remote_drops",
            "rpm_adds",
            "rpm_drops",
        ];
        assert(r@.map_values(|l: &'static str| l@) =~= crate::reconcile_laws::declared_lists());
        r
    }

    /// Every candidate this plan carries. The one place that enumerates them.
    pub fn items(&self) -> (r: Vec<PlanItem>)
        ensures
            item_views(r@) == items_spec(*self),
    {
        let mut out: Vec<PlanItem> = Vec::new();
        let mut i: usize = 0;
        while i < self.adds.len()
            invariant
                i <= self.adds@.len(),
                item_views(out@) == tagged("adds"@, true, add_tokens(self.adds@).take(i as int)),
            decreases self.adds.len() - i,
        {
            let ghost before = item_views(out@);
            out.push(PlanItem { list: "adds", adding: true, target: self.adds[i].token.clone() });
            proof {
                assert(item_views(out@) =~= before.push(("adds"@, true, self.adds@[i as int].token@)));
                assert(tagged("adds"@, true, add_tokens(self.adds@).take(i as int + 1)) =~= tagged(
                    "adds"@,
                    true,
                    add_tokens(self.adds@).take(i as int),
                ).push(("adds"@, true, self.adds@[i as int].token@)));
            }
            i += 1;
        }
        assert(add_tokens(self.adds@).take(self.adds@.len() as int) =~= add_tokens(self.adds@));
        push_tagged(&mut out, "drops", false, &self.drops);
        push_tagged(&mut out, "trust_adds", true, &self.trust_adds);
        push_tagged(&mut out, "trust_drops", false, &self.trust_drops);
        push_tagged(&mut out, "gext_adds", true, &self.gext_adds);
        push_tagged(&mut out, "gext_drops", false, &self.gext_drops);
        push_tagged(&mut out, "package_drops", false, &self.package_drops);
        push_tagged(&mut out, "remote_adds", true, &self.remote_adds);
        push_tagged(&mut out, "remote_drops", false, &self.remote_drops);
        push_tagged(&mut out, "rpm_adds", true, &self.rpm_adds);
        push_tagged(&mut out, "rpm_drops", false, &self.rpm_drops);
        let ghost lists = item_views(out@);
        let mut d: usize = 0;
        while d < self.dconf.len()
            invariant
                d <= self.dconf@.len(),
                item_views(out@) == lists + dconf_items(self.dconf@.take(d as int)),
            decreases self.dconf.len() - d,
        {
            let dp = &self.dconf[d];
            let ghost at_d = item_views(out@);
            let mut g: usize = 0;
            while g < dp.sections.len()
                invariant
                    g <= dp.sections@.len(),
                    item_views(out@) == at_d + sections_items(dp.name@, dp.sections@.take(g as int)),
                decreases dp.sections.len() - g,
            {
                let section = &dp.sections[g].0;
                let keys = &dp.sections[g].1;
                let ghost at_g = item_views(out@);
                let mut k: usize = 0;
                while k < keys.len()
                    invariant
                        k <= keys@.len(),
                        item_views(out@) == at_g + section_items(dp.name@, section@, keys@.take(k as int)),
                    decreases keys.len() - k,
                {
                    let kd = &keys[k];
                    let mut target = dp.name.clone();
                    let slash: [char; 1] = ['/'];
                    assert(slash@ =~= seq!['/']);
                    push_chars(&mut target, &slash);
                    let id = key_id(section.as_str(), kd.key.as_str());
                    push_str(&mut target, id.as_str());
                    assert(target@ == dp.name@ + seq!['/'] + key_id_spec(section@, kd.key@));
                    assert(kd.live.is_some() == (kd.live is Some));
                    let ghost before = item_views(out@);
                    out.push(PlanItem { list: "dconf", adding: kd.live.is_some(), target });
                    proof {
                        assert(seq!['/'] =~= seq!['/']);
                        assert(item_views(out@) =~= before.push(
                            ("dconf"@, kd.live is Some, dp.name@ + seq!['/'] + key_id_spec(section@, kd.key@)),
                        ));
                        assert(section_items(dp.name@, section@, keys@.take(k as int + 1)) =~= section_items(
                            dp.name@,
                            section@,
                            keys@.take(k as int),
                        ).push(("dconf"@, kd.live is Some, dp.name@ + seq!['/'] + key_id_spec(section@, kd.key@))));
                    }
                    k += 1;
                }
                proof {
                    assert(keys@.take(keys@.len() as int) =~= keys@);
                    let t = dp.sections@.take(g as int + 1);
                    assert(t.drop_last() =~= dp.sections@.take(g as int));
                    assert(t.last() == dp.sections@[g as int]);
                }
                g += 1;
            }
            proof {
                assert(dp.sections@.take(dp.sections@.len() as int) =~= dp.sections@);
                let t = self.dconf@.take(d as int + 1);
                assert(t.drop_last() =~= self.dconf@.take(d as int));
                assert(t.last() == self.dconf@[d as int]);
            }
            d += 1;
        }
        assert(self.dconf@.take(self.dconf@.len() as int) =~= self.dconf@);
        out
    }

    /// Nothing to absorb or drop.
    pub fn is_empty(&self) -> (r: bool)
        ensures
            r == (items_spec(*self).len() == 0),
    {
        self.items().len() == 0
    }
}

/// The Brewfile token for a `(manager, name)` pair: `manager "name"`.
pub open spec fn token_spec(m: Manager, name: Seq<char>) -> Seq<char> {
    manager_str(m) + seq![' ', '"'] + name + seq!['"']
}

/// The Brewfile token (line) for a `(manager, name)` pair.
pub fn token_for(manager: Manager, name: &str) -> (r: String)
    ensures
        r@ == token_spec(manager, name@),
{
    let mut out = String::new();
    push_str(&mut out, manager.as_str());
    push_chars(&mut out, &[' ', '"']);
    push_str(&mut out, name);
    push_chars(&mut out, &['"']);
    proof {
        assert(seq![' ', '"'] =~= seq![' ', '"']);
    }
    out
}

/// A brew extra's manager from the installed snapshot: a cask if the cask
/// set has it, else a formula.
pub fn classify_brew(name: &str, installed: &Installed) -> (r: Manager)
    ensures
        r == if installed@.0.dom().contains(Manager::Cask) && installed@.0[Manager::Cask].contains(name@) {
            Manager::Cask
        } else {
            Manager::Brew
        },
{
    if installed.contains(Manager::Cask, name) {
        Manager::Cask
    } else {
        Manager::Brew
    }
}

/// Brewfile content with `tokens` appended one per line, after a newline
/// if the content does not already end in one.
pub open spec fn with_adds_spec(c: Seq<char>, tokens: Seq<Seq<char>>) -> Seq<char> {
    let base = if tokens.len() > 0 && c.len() > 0 && c.last() != '\n' {
        c.push('\n')
    } else {
        c
    };
    base + join_nl(tokens)
}

/// Brewfile content with `tokens` appended (one per line).
pub fn brewfile_with_adds(content: &str, tokens: &[String]) -> (r: String)
    ensures
        r@ == with_adds_spec(content@, str_views(tokens@)),
{
    let c = chars_of(content);
    let mut out = string_of(c.as_slice());
    if tokens.len() > 0 && c.len() > 0 && c[c.len() - 1] != '\n' {
        push_chars(&mut out, &['\n']);
    }
    let ghost base = out@;
    let mut i: usize = 0;
    while i < tokens.len()
        invariant
            i <= tokens@.len(),
            out@ == base + join_nl(str_views(tokens@).take(i as int)),
        decreases tokens.len() - i,
    {
        push_str(&mut out, tokens[i].as_str());
        push_chars(&mut out, &['\n']);
        proof {
            let t = str_views(tokens@).take(i as int + 1);
            assert(t.drop_last() =~= str_views(tokens@).take(i as int));
            assert(out@ =~= base + join_nl(t));
        }
        i += 1;
    }
    assert(str_views(tokens@).take(tokens@.len() as int) =~= str_views(tokens@));
    out
}

/// The lines whose trimmed form is not among `drops` (trimmed).
pub open spec fn kept_lines(ls: Seq<Seq<char>>, drops: Seq<Seq<char>>) -> Seq<Seq<char>>
    decreases ls.len(),
{
    if ls.len() == 0 {
        Seq::empty()
    } else if drops.map_values(|d: Seq<char>| trim(d)).contains(trim(ls.last())) {
        kept_lines(ls.drop_last(), drops)
    } else {
        kept_lines(ls.drop_last(), drops).push(ls.last())
    }
}

/// Brewfile content with each line equal (trimmed) to one of `drop_lines`
/// (trimmed) removed; every kept line ends in a newline.
pub fn brewfile_without(content: &str, drop_lines: &[String]) -> (r: String)
    ensures
        r@ == join_nl(kept_lines(lines_of(content@), str_views(drop_lines@))),
{
    let mut drops: Vec<Vec<char>> = Vec::new();
    let mut i: usize = 0;
    while i < drop_lines.len()
        invariant
            i <= drop_lines@.len(),
            views(drops@) == str_views(drop_lines@).take(i as int).map_values(|d: Seq<char>| trim(d)),
        decreases drop_lines.len() - i,
    {
        let t = trimmed(chars_of(drop_lines[i].as_str()).as_slice());
        let ghost before = views(drops@);
        drops.push(t);
        proof {
            assert(views(drops@) =~= before.push(trim(drop_lines@[i as int]@)));
            assert(str_views(drop_lines@).take(i as int + 1).map_values(|d: Seq<char>| trim(d))
                =~= str_views(drop_lines@).take(i as int).map_values(|d: Seq<char>| trim(d)).push(
                trim(drop_lines@[i as int]@),
            ));
        }
        i += 1;
    }
    assert(str_views(drop_lines@).take(drop_lines@.len() as int) =~= str_views(drop_lines@));
    let v = chars_of(content);
    let ls = lines(v.as_slice());
    let ghost all = views(ls@);
    let mut out = String::new();
    let mut j: usize = 0;
    while j < ls.len()
        invariant
            j <= ls@.len(),
            all == views(ls@),
            views(drops@) == str_views(drop_lines@).map_values(|d: Seq<char>| trim(d)),
            out@ == join_nl(kept_lines(all.take(j as int), str_views(drop_lines@))),
        decreases ls.len() - j,
    {
        let t = trimmed(ls[j].as_slice());
        let mut hit = false;
        let mut q: usize = 0;
        while q < drops.len()
            invariant
                q <= drops@.len(),
                hit == exists|x: int| 0 <= x < q && views(drops@)[x] == t@,
            decreases drops.len() - q,
        {
            if same(drops[q].as_slice(), t.as_slice()) {
                hit = true;
                assert(views(drops@)[q as int] == t@);
            }
            q += 1;
        }
        proof {
            let tk = all.take(j as int + 1);
            assert(tk.drop_last() =~= all.take(j as int));
            assert(tk.last() == all[j as int]);
            assert(hit == views(drops@).contains(t@));
            assert(t@ == trim(all[j as int]));
        }
        let ghost before = out@;
        if !hit {
            push_chars(&mut out, ls[j].as_slice());
            let nl: [char; 1] = ['\n'];
            assert(nl@ =~= seq!['\n']);
            push_chars(&mut out, &nl);
            proof {
                let tk = all.take(j as int + 1);
                assert(kept_lines(tk, str_views(drop_lines@)) == kept_lines(all.take(j as int), str_views(drop_lines@)).push(all[j as int]));
                assert(out@ =~= before + all[j as int] + seq!['\n']);
                let k0 = kept_lines(all.take(j as int), str_views(drop_lines@));
                assert(k0.push(all[j as int]).drop_last() =~= k0);
                assert(join_nl(k0.push(all[j as int])) == join_nl(k0) + all[j as int] + seq!['\n']);
            }
        } else {
            proof {
                let tk = all.take(j as int + 1);
                assert(str_views(drop_lines@).map_values(|d: Seq<char>| trim(d)).contains(trim(tk.last())));
                assert(kept_lines(tk, str_views(drop_lines@)) == kept_lines(all.take(j as int), str_views(drop_lines@)));
            }
        }
        j += 1;
    }
    assert(all.take(ls@.len() as int) =~= all);
    out
}


/// brew-bundle's group order: tap, brew, cask, mas, vscode, flatpak.
pub open spec fn bundle_rank(m: Manager) -> u8 {
    match m {
        Manager::Tap => 0,
        Manager::Brew => 1,
        Manager::Cask => 2,
        Manager::Mas => 3,
        Manager::Vscode => 4,
        Manager::Flatpak => 5,
    }
}

fn bundle_rank_exec(m: Manager) -> (r: u8)
    ensures
        r == bundle_rank(m),
{
    match m {
        Manager::Tap => 0,
        Manager::Brew => 1,
        Manager::Cask => 2,
        Manager::Mas => 3,
        Manager::Vscode => 4,
        Manager::Flatpak => 5,
    }
}

pub open spec fn is_pkg_line(l: Seq<char>) -> bool {
    parse_spec(l) is Ok
}

pub open spec fn blank(l: Seq<char>) -> bool {
    trim(l).len() == 0
}

/// A comment line (`#` after leading whitespace).
pub open spec fn comment_line(l: Seq<char>) -> bool {
    let t = trim(l);
    t.len() > 0 && t[0] == '#'
}

/// Whether a line begins a comment once leading whitespace is skipped.
pub open spec fn comment_start(l: Seq<char>) -> bool {
    let t = trim_start(l);
    t.len() > 0 && t[0] == '#'
}

/// A Brewfile entry with the comments directly above it: comments, line,
/// group rank, lowercase name.
pub type EntryV = (Seq<Seq<char>>, Seq<char>, u8, Seq<char>);

/// Where an entry sorts: its group, then its lowercased name; a line that
/// does not parse sorts last.
pub open spec fn entry_order(l: Seq<char>) -> (u8, Seq<char>) {
    match parse_spec(l) {
        Ok(p) => (bundle_rank(p.0), lowercase(p.1)),
        Err(_) => (255u8, Seq::empty()),
    }
}

/// The entries and trailing comments of the lines from the header on:
/// blank lines dropped, comments collected onto the next entry.
pub open spec fn entries_of(ls: Seq<Seq<char>>) -> (Seq<EntryV>, Seq<Seq<char>>)
    decreases ls.len(),
{
    if ls.len() == 0 {
        (Seq::empty(), Seq::empty())
    } else {
        let (es, pending) = entries_of(ls.drop_last());
        let l = ls.last();
        if blank(l) {
            (es, pending)
        } else if comment_line(l) {
            (es, pending.push(l))
        } else {
            (es.push((pending, l, entry_order(l).0, entry_order(l).1)), Seq::empty())
        }
    }
}

/// `a` sorts after `b`.
pub open spec fn entry_gt(a: EntryV, b: EntryV) -> bool {
    a.2 > b.2 || (a.2 == b.2 && lex_lt(b.3, a.3))
}

/// Where a stable insertion puts `x`: after every entry not greater than it.
pub open spec fn insert_pos(s: Seq<EntryV>, x: EntryV) -> int
    decreases s.len(),
{
    if s.len() == 0 {
        0
    } else if entry_gt(s.last(), x) {
        insert_pos(s.drop_last(), x)
    } else {
        s.len() as int
    }
}

/// Stable sort by `(rank, name)`: equal entries keep their order.
pub open spec fn stable_sort(es: Seq<EntryV>) -> Seq<EntryV>
    decreases es.len(),
{
    if es.len() == 0 {
        Seq::empty()
    } else {
        let s = stable_sort(es.drop_last());
        s.insert(insert_pos(s, es.last()), es.last())
    }
}

/// The output lines of sorted entries: a blank line between groups (and
/// after a header), each entry's comments then its line.
pub open spec fn entry_lines(es: Seq<EntryV>, header: bool) -> Seq<Seq<char>>
    decreases es.len(),
{
    if es.len() == 0 {
        Seq::empty()
    } else {
        let i = es.len() - 1;
        let sep = if i == 0 {
            if header {
                seq![Seq::<char>::empty()]
            } else {
                Seq::empty()
            }
        } else if es[i - 1].2 != es[i].2 {
            seq![Seq::<char>::empty()]
        } else {
            Seq::empty()
        };
        entry_lines(es.drop_last(), header) + sep + es[i].0 + seq![es[i].1]
    }
}

/// From `a`, back over the comment lines directly above.
pub open spec fn walk_back(ls: Seq<Seq<char>>, a: int) -> int
    decreases a,
{
    if 0 < a <= ls.len() && comment_start(ls[a - 1]) {
        walk_back(ls, a - 1)
    } else {
        a
    }
}

pub open spec fn drop_trailing_blank(ls: Seq<Seq<char>>) -> Seq<Seq<char>>
    decreases ls.len(),
{
    if ls.len() > 0 && blank(ls.last()) {
        drop_trailing_blank(ls.drop_last())
    } else {
        ls
    }
}

pub open spec fn first_pkg(ls: Seq<Seq<char>>, i: int) -> bool {
    0 <= i < ls.len() && is_pkg_line(ls[i]) && forall|j: int| 0 <= j < i ==> !is_pkg_line(#[trigger] ls[j])
}

/// The canonically sorted Brewfile: the header (everything above the first
/// entry's comments, trailing blanks dropped), the entries stably sorted by
/// group then lowercased name with a blank line between groups, then any
/// comments after the last entry. Without a single entry, the content as-is.
pub open spec fn sort_spec(c: Seq<char>) -> Seq<char> {
    let ls = lines_of(c);
    if !(exists|i: int| first_pkg(ls, i)) {
        c
    } else {
        let first = choose|i: int| first_pkg(ls, i);
        let a = walk_back(ls, first);
        let header = drop_trailing_blank(ls.subrange(0, a));
        let (es, trailing) = entries_of(ls.subrange(a, ls.len() as int));
        let tail = if trailing.len() > 0 {
            seq![Seq::<char>::empty()] + trailing
        } else {
            Seq::empty()
        };
        join_nl(header + entry_lines(stable_sort(es), header.len() > 0) + tail)
    }
}

struct Entry {
    comments: Vec<Vec<char>>,
    line: Vec<char>,
    rank: u8,
    key: Vec<char>,
}

impl View for Entry {
    type V = EntryV;

    closed spec fn view(&self) -> EntryV {
        (views(self.comments@), self.line@, self.rank, self.key@)
    }
}

spec fn entry_views(es: Seq<Entry>) -> Seq<EntryV> {
    es.map_values(|e: Entry| e@)
}

fn entry_order_exec(l: &[char]) -> (r: (u8, Vec<char>))
    ensures
        (r.0, r.1@) == entry_order(l@),
{
    let s = string_of(l);
    match parse(s.as_str()) {
        Ok(p) => {
            let k = to_lowercase(p.name.as_str());
            (bundle_rank_exec(p.manager), chars_of(k.as_str()))
        },
        Err(_) => (255, Vec::new()),
    }
}

fn is_pkg_exec(l: &[char]) -> (r: bool)
    ensures
        r == is_pkg_line(l@),
{
    let s = string_of(l);
    parse(s.as_str()).is_ok()
}

fn starts_hash(t: &[char]) -> (r: bool)
    ensures
        r == (t@.len() > 0 && t@[0] == '#'),
{
    t.len() > 0 && t[0] == '#'
}

fn entry_gt_exec(a: &Entry, b: &Entry) -> (r: bool)
    ensures
        r == entry_gt(a@, b@),
{
    a.rank > b.rank || (a.rank == b.rank && lex_less(b.key.as_slice(), a.key.as_slice()))
}

fn find_first_entry(ls: &Vec<Vec<char>>) -> (r: Option<usize>)
    ensures
        match r {
            Some(i) => first_pkg(views(ls@), i as int),
            None => !exists|i: int| first_pkg(views(ls@), i),
        },
{
    let ghost all = views(ls@);
    let mut first: usize = 0;
    while first < ls.len() && !is_pkg_exec(ls[first].as_slice())
        invariant
            first <= ls@.len(),
            all == views(ls@),
            forall|j: int| 0 <= j < first ==> !is_pkg_line(#[trigger] all[j]),
        decreases ls.len() - first,
    {
        first += 1;
    }
    if first == ls.len() {
        proof {
            if exists|i: int| first_pkg(all, i) {
                let i = choose|i: int| first_pkg(all, i);
                assert(!is_pkg_line(all[i]));
            }
        }
        None
    } else {
        Some(first)
    }
}

fn walk_back_exec(ls: &Vec<Vec<char>>, first: usize) -> (a: usize)
    requires
        first < ls@.len(),
    ensures
        a == walk_back(views(ls@), first as int),
        a <= first,
{
    let ghost all = views(ls@);
    let mut a = first;
    while a > 0 && starts_hash(trimmed_start(ls[a - 1].as_slice()).as_slice())
        invariant
            a <= first < ls@.len(),
            all == views(ls@),
            walk_back(all, first as int) == walk_back(all, a as int),
        decreases a,
    {
        a -= 1;
    }
    a
}

fn header_len(ls: &Vec<Vec<char>>, a: usize) -> (hn: usize)
    requires
        a <= ls@.len(),
    ensures
        hn <= a,
        views(ls@).subrange(0, hn as int) == drop_trailing_blank(views(ls@).subrange(0, a as int)),
{
    let ghost all = views(ls@);
    let mut hn = a;
    while hn > 0 && trimmed(ls[hn - 1].as_slice()).len() == 0
        invariant
            hn <= a <= ls@.len(),
            all == views(ls@),
            drop_trailing_blank(all.subrange(0, a as int)) == drop_trailing_blank(all.subrange(0, hn as int)),
        decreases hn,
    {
        assert(all.subrange(0, hn as int).drop_last() =~= all.subrange(0, hn as int - 1));
        hn -= 1;
    }
    hn
}

fn collect_entries(ls: &Vec<Vec<char>>, a: usize) -> (r: (Vec<Entry>, Vec<Vec<char>>))
    requires
        a <= ls@.len(),
    ensures
        entries_of(views(ls@).subrange(a as int, ls@.len() as int)) == (entry_views(r.0@), views(r.1@)),
{
    let ghost all = views(ls@);
    let mut es: Vec<Entry> = Vec::new();
    let mut pending: Vec<Vec<char>> = Vec::new();
    let mut i = a;
    assert(all.subrange(a as int, a as int) =~= Seq::<Seq<char>>::empty());
    while i < ls.len()
        invariant
            a <= i <= ls@.len(),
            all == views(ls@),
            entries_of(all.subrange(a as int, i as int)) == (entry_views(es@), views(pending@)),
        decreases ls.len() - i,
    {
        let l = &ls[i];
        let ghost sub = all.subrange(a as int, i as int + 1);
        assert(sub.drop_last() =~= all.subrange(a as int, i as int));
        assert(sub.last() == l@);
        let t = trimmed(l.as_slice());
        if t.len() == 0 {
        } else if starts_hash(t.as_slice()) {
            let c = copy_chars(l.as_slice());
            proof {
                lemma_views_push(pending@, c);
            }
            pending.push(c);
        } else {
            let (rank, key) = entry_order_exec(l.as_slice());
            let comments = pending;
            pending = Vec::new();
            let e = Entry { comments, line: copy_chars(l.as_slice()), rank, key };
            let ghost ev = e@;
            let ghost before = entry_views(es@);
            es.push(e);
            assert(entry_views(es@) =~= before.push(ev));
            assert(views(pending@) =~= Seq::<Seq<char>>::empty());
        }
        i += 1;
    }
    (es, pending)
}

fn sort_entries(es: Vec<Entry>) -> (r: Vec<Entry>)
    ensures
        entry_views(r@) == stable_sort(entry_views(es@)),
{
    let ghost unsorted = entry_views(es@);
    let n = es.len();
    let mut sorted: Vec<Entry> = Vec::new();
    let mut k: usize = 0;
    let mut rest = es;
    assert(entry_views(rest@) =~= unsorted.subrange(0, unsorted.len() as int));
    assert(unsorted.take(0) =~= Seq::<EntryV>::empty());
    while rest.len() > 0
        invariant
            k + rest@.len() == unsorted.len(),
            n == unsorted.len(),
            entry_views(rest@) == unsorted.subrange(k as int, unsorted.len() as int),
            entry_views(sorted@) == stable_sort(unsorted.take(k as int)),
        decreases rest.len(),
    {
        let ghost rv = entry_views(rest@);
        let ghost rr = rest@;
        let x = rest.remove(0);
        proof {
            assert(rest@ =~= rr.subrange(1, rr.len() as int));
            assert forall|i: int| 0 <= i < rest@.len() implies entry_views(rest@)[i] == rv[i + 1] by {
                assert(rest@[i] == rr[i + 1]);
            }
            assert(x@ == rv[0]);
            assert(rv[0] == unsorted[k as int]);
            assert(entry_views(rest@) =~= unsorted.subrange(k as int + 1, unsorted.len() as int));
        }
        let ghost sv = entry_views(sorted@);
        let mut p = sorted.len();
        assert(sv.take(sv.len() as int) =~= sv);
        while p > 0 && entry_gt_exec(&sorted[p - 1], &x)
            invariant
                p <= sorted@.len(),
                sv == entry_views(sorted@),
                insert_pos(sv, x@) == insert_pos(sv.take(p as int), x@),
            decreases p,
        {
            assert(sv.take(p as int).drop_last() =~= sv.take(p as int - 1));
            p -= 1;
        }
        proof {
            if p > 0 {
                assert(insert_pos(sv.take(p as int), x@) == p);
            } else {
                assert(insert_pos(sv.take(0), x@) == 0);
            }
        }
        let ghost xv = x@;
        sorted.insert(p, x);
        proof {
            assert(entry_views(sorted@) =~= sv.insert(p as int, xv));
            let t = unsorted.take(k as int + 1);
            assert(t.drop_last() =~= unsorted.take(k as int));
            assert(t.last() == xv);
        }
        k += 1;
    }
    assert(unsorted.take(k as int) =~= unsorted);
    sorted
}

fn push_lines(out: &mut Vec<Vec<char>>, ls: &Vec<Vec<char>>)
    ensures
        views(final(out)@) == views(old(out)@) + views(ls@),
{
    let ghost mid = views(out@);
    let mut c: usize = 0;
    while c < ls.len()
        invariant
            c <= ls@.len(),
            views(out@) == mid + views(ls@).take(c as int),
        decreases ls.len() - c,
    {
        let cc = copy_chars(ls[c].as_slice());
        proof {
            lemma_views_push(out@, cc);
        }
        out.push(cc);
        assert(views(out@) =~= mid + views(ls@).take(c as int + 1));
        c += 1;
    }
    assert(views(ls@).take(ls@.len() as int) =~= views(ls@));
}

fn render_entries(out: &mut Vec<Vec<char>>, sorted: &Vec<Entry>, has_header: bool)
    ensures
        views(final(out)@) == views(old(out)@) + entry_lines(entry_views(sorted@), has_header),
{
    let ghost start = views(out@);
    let ghost sv = entry_views(sorted@);
    let mut j: usize = 0;
    while j < sorted.len()
        invariant
            j <= sorted@.len(),
            sv == entry_views(sorted@),
            views(out@) == start + entry_lines(sv.take(j as int), has_header),
        decreases sorted.len() - j,
    {
        let e = &sorted[j];
        let need_sep = if j == 0 {
            has_header
        } else {
            sorted[j - 1].rank != e.rank
        };
        let ghost before = views(out@);
        if need_sep {
            let b: Vec<char> = Vec::new();
            proof {
                lemma_views_push(out@, b);
            }
            out.push(b);
        }
        push_lines(out, &e.comments);
        let ll = copy_chars(e.line.as_slice());
        proof {
            lemma_views_push(out@, ll);
        }
        out.push(ll);
        proof {
            let t = sv.take(j as int + 1);
            assert(t.drop_last() =~= sv.take(j as int));
            assert(t[j as int] == e@);
            if j > 0 {
                assert(t[j as int - 1] == sorted@[j as int - 1]@);
            }
            assert(views(out@) =~= start + entry_lines(t, has_header));
        }
        j += 1;
    }
    assert(sv.take(sv.len() as int) =~= sv);
}

fn join_all(out: &Vec<Vec<char>>) -> (text: String)
    ensures
        text@ == join_nl(views(out@)),
{
    let mut text = String::new();
    let mut w: usize = 0;
    while w < out.len()
        invariant
            w <= out@.len(),
            text@ == join_nl(views(out@).take(w as int)),
        decreases out.len() - w,
    {
        push_chars(&mut text, out[w].as_slice());
        let nl: [char; 1] = ['\n'];
        assert(nl@ =~= seq!['\n']);
        push_chars(&mut text, &nl);
        proof {
            let t = views(out@).take(w as int + 1);
            assert(t.drop_last() =~= views(out@).take(w as int));
            assert(text@ =~= join_nl(t));
        }
        w += 1;
    }
    assert(views(out@).take(out@.len() as int) =~= views(out@));
    text
}

/// Canonically re-sort a Brewfile: entries grouped by manager in
/// brew-bundle's order and sorted case-insensitively by name within each
/// group, one blank line between groups, each entry keeping the comment lines
/// directly above it; a leading comment block set off by a blank line stays
/// on top, trailing comments stay at the end, unparseable lines sort last.
pub fn sort_brewfile(content: &str) -> (r: String)
    ensures
        r@ == sort_spec(content@),
{
    let v = chars_of(content);
    let ls = lines(v.as_slice());
    let ghost all = views(ls@);
    let first = match find_first_entry(&ls) {
        None => return string_of(v.as_slice()),
        Some(f) => f,
    };
    proof {
        let c = choose|i: int| first_pkg(all, i);
        if c < first {
            assert(!is_pkg_line(all[c]));
        } else if c > first {
            assert(!is_pkg_line(all[first as int]));
        }
    }
    let a = walk_back_exec(&ls, first);
    let hn = header_len(&ls, a);
    let (es, pending) = collect_entries(&ls, a);
    let sorted = sort_entries(es);
    let mut out: Vec<Vec<char>> = Vec::new();
    let mut q: usize = 0;
    while q < hn
        invariant
            q <= hn <= ls@.len(),
            all == views(ls@),
            views(out@) == all.subrange(0, q as int),
        decreases hn - q,
    {
        let c = copy_chars(ls[q].as_slice());
        proof {
            lemma_views_push(out@, c);
        }
        out.push(c);
        assert(views(out@) =~= all.subrange(0, q as int + 1));
        q += 1;
    }
    render_entries(&mut out, &sorted, hn > 0);
    if pending.len() > 0 {
        let b: Vec<char> = Vec::new();
        proof {
            lemma_views_push(out@, b);
        }
        out.push(b);
        push_lines(&mut out, &pending);
    }
    proof {
        let header = all.subrange(0, hn as int);
        let tail = if views(pending@).len() > 0 {
            seq![Seq::<char>::empty()] + views(pending@)
        } else {
            Seq::<Seq<char>>::empty()
        };
        assert(views(out@) =~= header + entry_lines(entry_views(sorted@), hn > 0) + tail);
    }
    join_all(&out)
}

} // verus!
