//! Prune and adopt: the installed-but-undeclared things a machine carries,
//! computed once for both verbs so they cannot disagree about what an extra
//! is, and the plan a prune confirms before anything is removed.
use vstd::prelude::*;
use crate::lists::{sort_strings, sorted_le};
use crate::manifest::{str_views, Ignore};
use crate::packages::{extra_lt, extras, is_extra, pair_views, Installed, Manager, Pkg};
use crate::plan::PrunePlan;
use crate::providers::{filter_out, gext_extras, rpm_ostree_extras, without};
use crate::reconcile_plan::extra_set;
use crate::text::{lemma_lex_irrefl, push_str};

verus! {

/// A manager whose extras come from the dependency-aware cleanup instead.
pub open spec fn brew_family(m: Manager) -> bool {
    m == Manager::Brew || m == Manager::Cask || m == Manager::Tap
}

/// The naive extras in order, ordered by manager then name with no repeats,
/// and naming exactly the extra set.
pub open spec fn is_extras_list(x: Seq<(Manager, Seq<char>)>, declared: Seq<Pkg>, inst: (Map<Manager, Set<Seq<char>>>, Set<Manager>), ignore: Ignore) -> bool {
    &&& forall|i: int, j: int| 0 <= i < j < x.len() ==> extra_lt(#[trigger] x[i], #[trigger] x[j])
    &&& x.to_set() == extra_set(declared, inst, ignore)
}

/// Installed-but-undeclared packages: the naive extras of every manager but
/// the brew family, then the brew family's dependency-aware extras. Nothing
/// when the machine declares no packages.
pub fn package_extras(effective: &[Pkg], installed: &Installed, ignore: &Ignore, brew_extras: Vec<(Manager, String)>) -> (r: Vec<(Manager, String)>)
    ensures
        effective@.len() == 0 ==> r@.len() == 0,
        effective@.len() > 0 ==> exists|x: Seq<(Manager, Seq<char>)>| #[trigger] is_extras_list(x, effective@, installed@, *ignore)
            && pair_views(r@) == x.filter(|p: (Manager, Seq<char>)| !brew_family(p.0)) + pair_views(brew_extras@),
{
    if effective.len() == 0 {
        return Vec::new();
    }
    let naive = extras(effective, installed, ignore);
    let ghost x = pair_views(naive@);
    proof {
        assert forall|p: (Manager, Seq<char>)| x.to_set().contains(p) <==> extra_set(effective@, installed@, *ignore).contains(p) by {
            if x.contains(p) {
                let i = choose|i: int| 0 <= i < x.len() && x[i] == p;
                assert(is_extra(x[i].0, x[i].1, effective@, installed@, *ignore));
            }
            if is_extra(p.0, p.1, effective@, installed@, *ignore) {
                let i = choose|i: int| 0 <= i < naive@.len() && pair_views(naive@)[i] == (p.0, p.1);
                assert(x[i] == p);
            }
        }
        assert(x.to_set() =~= extra_set(effective@, installed@, *ignore));
    }
    let mut out: Vec<(Manager, String)> = Vec::new();
    let mut i: usize = 0;
    while i < naive.len()
        invariant
            i <= naive@.len(),
            x == pair_views(naive@),
            pair_views(out@) == x.take(i as int).filter(|p: (Manager, Seq<char>)| !brew_family(p.0)),
        decreases naive.len() - i,
    {
        let m = naive[i].0;
        proof {
            let t = x.take(i as int + 1);
            assert(t.drop_last() =~= x.take(i as int));
            assert(t.last() == x[i as int]);
            reveal(Seq::filter);
        }
        if !(m == Manager::Brew || m == Manager::Cask || m == Manager::Tap) {
            let mut n = String::new();
            push_str(&mut n, naive[i].1.as_str());
            let ghost before = pair_views(out@);
            out.push((m, n));
            assert(pair_views(out@) =~= before.push(x[i as int]));
        }
        i += 1;
    }
    assert(x.take(naive@.len() as int) =~= x);
    let ghost head = pair_views(out@);
    let mut j: usize = 0;
    let n = brew_extras.len();
    let ghost be = pair_views(brew_extras@);
    let mut rest = brew_extras;
    while rest.len() > 0
        invariant
            j + rest@.len() == n,
            be.len() == n,
            pair_views(rest@) == be.subrange(j as int, n as int),
            pair_views(out@) == head + be.take(j as int),
        decreases rest.len(),
    {
        let ghost old_rest = rest@;
        let e = rest.remove(0);
        proof {
            assert(e == old_rest[0]);
            assert(rest@ =~= old_rest.drop_first());
            assert(pair_views(old_rest)[0] == be[j as int]);
            assert(pair_views(rest@) =~= pair_views(old_rest).drop_first());
            assert(pair_views(rest@) =~= be.subrange(j as int + 1, n as int));
            assert(be[j as int] == (e.0, e.1@));
        }
        let ghost before = pair_views(out@);
        out.push(e);
        assert(pair_views(out@) =~= before.push(be[j as int]));
        assert(be.take(j as int + 1) =~= be.take(j as int).push(be[j as int]));
        j += 1;
    }
    assert(be.take(n as int) =~= be);
    assert(is_extras_list(x, effective@, installed@, *ignore));
    out
}

/// What a prune reads before it plans.
pub struct PruneReport {
    /// The dependency-aware brew-family extras.
    pub brew_extras: Vec<(Manager, String)>,
    /// The taps Homebrew trusts, when that could be read.
    pub trusted: Option<Vec<String>>,
    /// User-scope GNOME extensions, when they could be listed.
    pub user_extensions: Option<Vec<String>>,
    /// The layered rpms, when they could be read.
    pub layered: Option<Vec<String>>,
}

/// The prune plan: the package extras; the trusted taps neither declared
/// nor ignored, sorted; the user-scope extensions and layered rpms no
/// declaration names. Each list is gated on its own.
pub fn run_prune(
    effective: &[Pkg],
    installed: &Installed,
    ignore: &Ignore,
    brew_trust: &[String],
    declared_extensions: &[String],
    declared_rpms: &[String],
    report: PruneReport,
) -> (r: PrunePlan)
    ensures
        effective@.len() == 0 ==> r.packages@.len() == 0,
        effective@.len() > 0 ==> exists|x: Seq<(Manager, Seq<char>)>| #[trigger] is_extras_list(x, effective@, installed@, *ignore)
            && pair_views(r.packages@) == x.filter(|p: (Manager, Seq<char>)| !brew_family(p.0)) + pair_views(report.brew_extras@),
        report.trusted is None ==> r.untrust@.len() == 0,
        report.trusted matches Some(t) ==> sorted_le(str_views(r.untrust@))
            && str_views(r.untrust@).to_multiset() == without(str_views(t@), str_views(brew_trust@), str_views(ignore.tap@)).to_multiset(),
        (declared_extensions@.len() == 0 || report.user_extensions is None) ==> r.extensions@.len() == 0,
        declared_extensions@.len() > 0 ==> (report.user_extensions matches Some(u) ==> (sorted_le(str_views(r.extensions@))
            && str_views(r.extensions@).to_multiset() == without(str_views(u@), str_views(declared_extensions@), str_views(ignore.gnome_extensions@)).to_multiset())),
        (declared_rpms@.len() == 0 || report.layered is None) ==> r.rpm_ostree@.len() == 0,
        declared_rpms@.len() > 0 ==> (report.layered matches Some(q) ==> (sorted_le(str_views(r.rpm_ostree@))
            && str_views(r.rpm_ostree@).to_multiset() == without(str_views(q@), str_views(declared_rpms@), str_views(ignore.rpm_ostree@)).to_multiset())),
{
    let packages = package_extras(effective, installed, ignore, report.brew_extras);
    let untrust = match &report.trusted {
        Some(t) => sort_strings(filter_out(t.as_slice(), brew_trust, ignore.tap.as_slice())),
        None => Vec::new(),
    };
    let extensions = gext_extras(declared_extensions, ignore, report.user_extensions);
    let rpm_ostree = rpm_ostree_extras(declared_rpms, ignore, report.layered);
    PrunePlan { packages, untrust, extensions, rpm_ostree }
}

/// Adopt reports the same package extras a prune would remove.
pub fn run_adopt(effective: &[Pkg], installed: &Installed, ignore: &Ignore, brew_extras: Vec<(Manager, String)>) -> (r: Vec<(Manager, String)>)
    ensures
        effective@.len() == 0 ==> r@.len() == 0,
        effective@.len() > 0 ==> exists|x: Seq<(Manager, Seq<char>)>| #[trigger] is_extras_list(x, effective@, installed@, *ignore)
            && pair_views(r@) == x.filter(|p: (Manager, Seq<char>)| !brew_family(p.0)) + pair_views(brew_extras@),
{
    package_extras(effective, installed, ignore, brew_extras)
}

/// Which removals a confirmed prune performs: packages, untrusts and
/// extension uninstalls only for non-empty lists (an rpm un-layer is always
/// asked, and is itself a no-op on an empty list).
pub fn prune_steps(plan: &PrunePlan) -> (r: (bool, bool, bool))
    ensures
        r.0 == (plan.packages@.len() > 0),
        r.1 == (plan.untrust@.len() > 0),
        r.2 == (plan.extensions@.len() > 0),
{
    (plan.packages.len() > 0, plan.untrust.len() > 0, plan.extensions.len() > 0)
}

} // verus!
