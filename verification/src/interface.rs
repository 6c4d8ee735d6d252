//! The provider interface, as data: for every provider, the finding kinds it
//! emits and how it answers each column of the feature matrix (fleet and
//! machine scope, observe, install, prune, reconcile, ignore, revertible,
//! residue).
use vstd::prelude::*;
use crate::text::{chars_of, same};

verus! {

/// How a column is answered.
#[derive(Debug, Clone, Copy, PartialEq, Eq)]
pub enum Col {
    /// Implemented.
    Yes,
    /// Not implemented, and why.
    No(&'static str),
    /// The column does not apply to this kind of state, and why.
    NA(&'static str),
}

/// A column's view: `(0, "")` for yes, `(1, why)` for no, `(2, why)` for
/// not applicable.
pub type ColV = (u8, Seq<char>);

pub open spec fn col_view(c: Col) -> ColV {
    match c {
        Col::Yes => (0u8, Seq::empty()),
        Col::No(w) => (1u8, w@),
        Col::NA(w) => (2u8, w@),
    }
}

impl Col {
    /// The column is implemented.
    pub fn answered(&self) -> (r: bool)
        ensures
            r == (*self is Yes),
    {
        match self {
            Col::Yes => true,
            _ => false,
        }
    }
}

/// One provider's answers, in the matrix's column order.
#[derive(Debug, Clone)]
pub struct ProviderSpec {
    pub name: &'static str,
    /// The finding kinds this provider emits.
    pub kinds: Vec<&'static str>,
    /// A group declaration exists.
    pub fleet_scope: Col,
    /// A machine declaration exists.
    pub machine_scope: Col,
    /// Can enumerate what is present.
    pub observe: Col,
    /// Can make the machine match.
    pub install: Col,
    /// Can remove what neither scope declares.
    pub prune: Col,
    /// Reconcile absorbs into, and drops from, machine scope.
    pub reconcile: Col,
    /// An ignore list, at machine scope.
    pub ignore: Col,
    /// Mutations are journaled and revertible.
    pub revertible: Col,
    /// What happens to what it deployed when the declaration goes away.
    pub residue: Col,
}

/// A provider's view: its name, its kinds, and its nine columns in order.
pub type ProviderV = (Seq<char>, Seq<Seq<char>>, Seq<ColV>);

pub open spec fn provider_view(p: ProviderSpec) -> ProviderV {
    (
        p.name@,
        p.kinds@.map_values(|k: &'static str| k@),
        seq![
            col_view(p.fleet_scope),
            col_view(p.machine_scope),
            col_view(p.observe),
            col_view(p.install),
            col_view(p.prune),
            col_view(p.reconcile),
            col_view(p.ignore),
            col_view(p.revertible),
            col_view(p.residue),
        ],
    )
}

pub open spec fn provider_views(v: Seq<ProviderSpec>) -> Seq<ProviderV> {
    v.map_values(|p: ProviderSpec| provider_view(p))
}

pub open spec fn provider_rows_0() -> Seq<ProviderV> {
    seq![
        ("brew"@, seq!["brew-package"@, "brew-package-extra"@], seq![(0u8, Seq::<char>::empty()), (0u8, Seq::<char>::empty()), (0u8, Seq::<char>::empty()), (0u8, Seq::<char>::empty()), (0u8, Seq::<char>::empty()), (0u8, Seq::<char>::empty()), (0u8, Seq::<char>::empty()), (0u8, Seq::<char>::empty()), (2u8, "a package leaves no spec-owned residue: removing the declaration makes it an extra, which prune answers"@)]),
        ("brew-trust"@, seq!["brew-trust"@, "brew-trust-extra"@], seq![(0u8, Seq::<char>::empty()), (0u8, Seq::<char>::empty()), (0u8, Seq::<char>::empty()), (0u8, Seq::<char>::empty()), (0u8, Seq::<char>::empty()), (0u8, Seq::<char>::empty()), (0u8, Seq::<char>::empty()), (1u8, "installs are not journaled for this provider yet — the pattern applies (the missing set is known before the converge, and uninstall is install backwards), it is simply unwired"@), (2u8, "trust is a flag, not a deployed artifact"@)]),
        ("flatpak"@, seq!["flatpak-package"@, "flatpak-package-extra"@], seq![(0u8, Seq::<char>::empty()), (0u8, Seq::<char>::empty()), (0u8, Seq::<char>::empty()), (0u8, Seq::<char>::empty()), (0u8, Seq::<char>::empty()), (0u8, Seq::<char>::empty()), (0u8, Seq::<char>::empty()), (1u8, "undo uninstalls `--user`, which is not necessarily the scope install wrote to — see ROADMAP"@), (2u8, "a package leaves no spec-owned residue: removing the declaration makes it an extra, which prune answers"@)]),
        ("flatpak-remote"@, seq!["flatpak-remote"@, "flatpak-remote-extra"@], seq![(2u8, "a remote belongs to the bundle whose apps need it — group scope, gated"@), (0u8, Seq::<char>::empty()), (0u8, Seq::<char>::empty()), (0u8, Seq::<char>::empty()), (0u8, Seq::<char>::empty()), (0u8, Seq::<char>::empty()), (0u8, Seq::<char>::empty()), (1u8, "remote-add is not journaled yet; the pattern applies but is unwired"@), (2u8, "a remote leaves nothing behind: un-declaring it makes it an extra, which prune answers"@)]),
        ("mas"@, seq!["mas-package"@, "mas-package-extra"@], seq![(0u8, Seq::<char>::empty()), (0u8, Seq::<char>::empty()), (0u8, Seq::<char>::empty()), (0u8, Seq::<char>::empty()), (0u8, Seq::<char>::empty()), (0u8, Seq::<char>::empty()), (0u8, Seq::<char>::empty()), (0u8, Seq::<char>::empty()), (2u8, "a package leaves no spec-owned residue: removing the declaration makes it an extra, which prune answers"@)]),
    ]
}

fn provider_table_0(r: &mut Vec<ProviderSpec>)
    ensures
        provider_views(final(r)@) == provider_views(old(r)@) + provider_rows_0(),
{
    let ghost start = provider_views(r@);
    r.push(ProviderSpec {
        name: "brew",
        kinds: vec!["brew-package", "brew-package-extra"],
        fleet_scope: Col::Yes,
        machine_scope: Col::Yes,
        observe: Col::Yes,
        install: Col::Yes,
        prune: Col::Yes,
        reconcile: Col::Yes,
        ignore: Col::Yes,
        revertible: Col::Yes,
        residue: Col::NA("a package leaves no spec-owned residue: removing the declaration makes it an extra, which prune answers"),
    });
    r.push(ProviderSpec {
        name: "brew-trust",
        kinds: vec!["brew-trust", "brew-trust-extra"],
        fleet_scope: Col::Yes,
        machine_scope: Col::Yes,
        observe: Col::Yes,
        install: Col::Yes,
        prune: Col::Yes,
        reconcile: Col::Yes,
        ignore: Col::Yes,
        revertible: Col::No("installs are not journaled for this provider yet — the pattern applies (the missing set is known before the converge, and uninstall is install backwards), it is simply unwired"),
        residue: Col::NA("trust is a flag, not a deployed artifact"),
    });
    r.push(ProviderSpec {
        name: "flatpak",
        kinds: vec!["flatpak-package", "flatpak-package-extra"],
        fleet_scope: Col::Yes,
        machine_scope: Col::Yes,
        observe: Col::Yes,
        install: Col::Yes,
        prune: Col::Yes,
        reconcile: Col::Yes,
        ignore: Col::Yes,
        revertible: Col::No("undo uninstalls `--user`, which is not necessarily the scope install wrote to — see ROADMAP"),
        residue: Col::NA("a package leaves no spec-owned residue: removing the declaration makes it an extra, which prune answers"),
    });
    r.push(ProviderSpec {
        name: "flatpak-remote",
        kinds: vec!["flatpak-remote", "flatpak-remote-extra"],
        fleet_scope: Col::NA("a remote belongs to the bundle whose apps need it — group scope, gated"),
        machine_scope: Col::Yes,
        observe: Col::Yes,
        install: Col::Yes,
        prune: Col::Yes,
        reconcile: Col::Yes,
        ignore: Col::Yes,
        revertible: Col::No("remote-add is not journaled yet; the pattern applies but is unwired"),
        residue: Col::NA("a remote leaves nothing behind: un-declaring it makes it an extra, which prune answers"),
    });
    r.push(ProviderSpec {
        name: "mas",
        kinds: vec!["mas-package", "mas-package-extra"],
        fleet_scope: Col::Yes,
        machine_scope: Col::Yes,
        observe: Col::Yes,
        install: Col::Yes,
        prune: Col::Yes,
        reconcile: Col::Yes,
        ignore: Col::Yes,
        revertible: Col::Yes,
        residue: Col::NA("a package leaves no spec-owned residue: removing the declaration makes it an extra, which prune answers"),
    });
    assert(provider_views(r@) =~~= start + provider_rows_0());
}

pub open spec fn provider_rows_1() -> Seq<ProviderV> {
    seq![
        ("gnome-extensions"@, seq!["gnome-extension"@, "gnome-extension-extra"@], seq![(0u8, Seq::<char>::empty()), (0u8, Seq::<char>::empty()), (0u8, Seq::<char>::empty()), (0u8, Seq::<char>::empty()), (0u8, Seq::<char>::empty()), (0u8, Seq::<char>::empty()), (0u8, Seq::<char>::empty()), (0u8, Seq::<char>::empty()), (2u8, "a package leaves no spec-owned residue: removing the declaration makes it an extra, which prune answers"@)]),
        ("rpm-ostree"@, seq!["rpm-ostree"@, "rpm-ostree-extra"@], seq![(0u8, Seq::<char>::empty()), (0u8, Seq::<char>::empty()), (0u8, Seq::<char>::empty()), (0u8, Seq::<char>::empty()), (0u8, Seq::<char>::empty()), (0u8, Seq::<char>::empty()), (0u8, Seq::<char>::empty()), (0u8, Seq::<char>::empty()), (2u8, "a package leaves no spec-owned residue: removing the declaration makes it an extra, which prune answers"@)]),
        ("deployed-files"@, seq!["deployed-file-extra"@], seq![(0u8, Seq::<char>::empty()), (2u8, "a deployed file is declared by a step in a bundle; there is no per-machine file list"@), (0u8, Seq::<char>::empty()), (0u8, Seq::<char>::empty()), (0u8, Seq::<char>::empty()), (2u8, "re-declaring a dropped file means writing the step you deleted — authoring, not reconciling"@), (1u8, "no ignore list for deployed paths yet; an edited file is reported rather than removed, which covers the case that matters"@), (0u8, Seq::<char>::empty()), (0u8, Seq::<char>::empty())]),
        ("dconf"@, seq!["dconf-key"@, "dconf-extra"@, "dconf-uncaptured"@, "dconf-unavailable"@], seq![(0u8, Seq::<char>::empty()), (0u8, Seq::<char>::empty()), (0u8, Seq::<char>::empty()), (0u8, Seq::<char>::empty()), (2u8, "a snapshot is not exhaustive — nothing deletes a live key it never mentioned"@), (0u8, Seq::<char>::empty()), (1u8, "no per-key ignore list; `strip` is a round-trip noise filter"@), (0u8, Seq::<char>::empty()), (1u8, "removing a [[machine.dconf]] leaves its captured file and its live keys — nothing tracks what a snapshot owned"@)]),
        ("profile"@, seq!["profile"@], seq![(0u8, Seq::<char>::empty()), (1u8, "a .mobileconfig is declared in a bundle; there is no per-machine profile list, so nothing can be reconciled into one"@), (0u8, Seq::<char>::empty()), (1u8, "apply is a System Settings dialog the user approves, so it cannot converge unattended or headless"@), (1u8, "nothing removes an installed profile — that is a GUI action too"@), (1u8, "no machine scope to absorb into, and no export of an installed profile"@), (1u8, "no extras direction exists, so there is nothing to silence"@), (1u8, "approval is the user's click; temper cannot un-approve it"@), (1u8, "an installed profile outlives the declaration and nothing enumerates what temper put there — the file ledger covers deployed files, not system profiles"@)]),
    ]
}

fn provider_table_1(r: &mut Vec<ProviderSpec>)
    ensures
        provider_views(final(r)@) == provider_views(old(r)@) + provider_rows_1(),
{
    let ghost start = provider_views(r@);
    r.push(ProviderSpec {
        name: "gnome-extensions",
        kinds: vec!["gnome-extension", "gnome-extension-extra"],
        fleet_scope: Col::Yes,
        machine_scope: Col::Yes,
        observe: Col::Yes,
        install: Col::Yes,
        prune: Col::Yes,
        reconcile: Col::Yes,
        ignore: Col::Yes,
        revertible: Col::Yes,
        residue: Col::NA("a package leaves no spec-owned residue: removing the declaration makes it an extra, which prune answers"),
    });
    r.push(ProviderSpec {
        name: "rpm-ostree",
        kinds: vec!["rpm-ostree", "rpm-ostree-extra"],
        fleet_scope: Col::Yes,
        machine_scope: Col::Yes,
        observe: Col::Yes,
        install: Col::Yes,
        prune: Col::Yes,
        reconcile: Col::Yes,
        ignore: Col::Yes,
        revertible: Col::Yes,
        residue: Col::NA("a package leaves no spec-owned residue: removing the declaration makes it an extra, which prune answers"),
    });
    r.push(ProviderSpec {
        name: "deployed-files",
        kinds: vec!["deployed-file-extra"],
        fleet_scope: Col::Yes,
        machine_scope: Col::NA("a deployed file is declared by a step in a bundle; there is no per-machine file list"),
        observe: Col::Yes,
        install: Col::Yes,
        prune: Col::Yes,
        reconcile: Col::NA("re-declaring a dropped file means writing the step you deleted — authoring, not reconciling"),
        ignore: Col::No("no ignore list for deployed paths yet; an edited file is reported rather than removed, which covers the case that matters"),
        revertible: Col::Yes,
        residue: Col::Yes,
    });
    r.push(ProviderSpec {
        name: "dconf",
        kinds: vec!["dconf-key", "dconf-extra", "dconf-uncaptured", "dconf-unavailable"],
        fleet_scope: Col::Yes,
        machine_scope: Col::Yes,
        observe: Col::Yes,
        install: Col::Yes,
        prune: Col::NA("a snapshot is not exhaustive — nothing deletes a live key it never mentioned"),
        reconcile: Col::Yes,
        ignore: Col::No("no per-key ignore list; `strip` is a round-trip noise filter"),
        revertible: Col::Yes,
        residue: Col::No("removing a [[machine.dconf]] leaves its captured file and its live keys — nothing tracks what a snapshot owned"),
    });
    r.push(ProviderSpec {
        name: "profile",
        kinds: vec!["profile"],
        fleet_scope: Col::Yes,
        machine_scope: Col::No("a .mobileconfig is declared in a bundle; there is no per-machine profile list, so nothing can be reconciled into one"),
        observe: Col::Yes,
        install: Col::No("apply is a System Settings dialog the user approves, so it cannot converge unattended or headless"),
        prune: Col::No("nothing removes an installed profile — that is a GUI action too"),
        reconcile: Col::No("no machine scope to absorb into, and no export of an installed profile"),
        ignore: Col::No("no extras direction exists, so there is nothing to silence"),
        revertible: Col::No("approval is the user's click; temper cannot un-approve it"),
        residue: Col::No("an installed profile outlives the declaration and nothing enumerates what temper put there — the file ledger covers deployed files, not system profiles"),
    });
    assert(provider_views(r@) =~~= start + provider_rows_1());
}

/// Every provider and where each feature stands for it.
pub open spec fn provider_rows() -> Seq<ProviderV> {
    provider_rows_0() + provider_rows_1()
}

/// The provider table.
pub fn provider_table() -> (r: Vec<ProviderSpec>)
    ensures
        provider_views(r@) == provider_rows(),
{
    let mut r: Vec<ProviderSpec> = Vec::new();
    assert(provider_views(r@) =~= Seq::<ProviderV>::empty());
    provider_table_0(&mut r);
    provider_table_1(&mut r);
    assert(provider_views(r@) =~= provider_rows());
    r
}

/// The first row with that name.
pub open spec fn find_provider(rows: Seq<ProviderV>, name: Seq<char>) -> Option<ProviderV>
    decreases rows.len(),
{
    if rows.len() == 0 {
        None
    } else if rows[0].0 == name {
        Some(rows[0])
    } else {
        find_provider(rows.drop_first(), name)
    }
}

/// The provider named `name`.
pub fn spec(name: &str) -> (r: Option<ProviderSpec>)
    ensures
        match r {
            Some(p) => find_provider(provider_rows(), name@) == Some(provider_view(p)),
            None => find_provider(provider_rows(), name@) is None,
        },
{
    let mut table = provider_table();
    let ghost rows = provider_rows();
    let mut i: usize = 0;
    assert(rows.subrange(0, rows.len() as int) =~= rows);
    while i < table.len()
        invariant
            i <= table@.len(),
            provider_views(table@) == rows,
            rows == provider_rows(),
            find_provider(rows, name@) == find_provider(rows.subrange(i as int, rows.len() as int), name@),
        decreases table.len() - i,
    {
        let ghost rest = rows.subrange(i as int, rows.len() as int);
        assert(rest[0] == provider_view(table@[i as int]));
        if same(chars_of(table[i].name).as_slice(), chars_of(name).as_slice()) {
            let p = table.remove(i);
            assert(find_provider(rest, name@) == Some(rest[0]));
            return Some(p);
        }
        assert(rest.drop_first() =~= rows.subrange(i as int + 1, rows.len() as int));
        i += 1;
    }
    assert(rows.subrange(i as int, rows.len() as int) =~= Seq::<ProviderV>::empty());
    None
}

/// Why this provider's converge cannot be reverted: the reason its
/// `revertible` column declines with, if it does.
pub open spec fn unrevertible_spec(name: Seq<char>) -> Option<Seq<char>> {
    match find_provider(provider_rows(), name) {
        Some(p) => if p.2[7].0 == 1 { Some(p.2[7].1) } else { None },
        None => None,
    }
}

/// Why this provider's converge cannot be reverted, if it cannot.
pub fn unrevertible_reason(name: &str) -> (r: Option<&'static str>)
    ensures
        match r {
            Some(w) => unrevertible_spec(name@) == Some(w@),
            None => unrevertible_spec(name@) is None,
        },
{
    match spec(name) {
        Some(p) => match p.revertible {
            Col::No(why) => Some(why),
            _ => None,
        },
        None => None,
    }
}

} // verus!
