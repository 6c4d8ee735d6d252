//! A machine's declared effective package set: its composed bundles'
//! packages (OS-scoped, bundle gates honoured), its loose list, and its
//! Brewfile, parsed and de-duplicated. `[ignore]` never removes a declared
//! package; it only matters when extras are detected.
use vstd::prelude::*;
use crate::manifest::{gated, gated_spec, opt_str, str_views, Machine};
use crate::packages::{match_name_spec, parse, parse_spec, pkg_view, Manager, Pkg, PkgError, PkgV};
use crate::plan::str_eq;
use crate::text::{chars_of, lines, lines_of, push_str, string_of, trim, trimmed, views};

verus! {

/// A bundle's package declarations and its os/role gate.
#[derive(Debug, Clone, PartialEq, Eq)]
pub struct PackageBundle {
    pub os: Option<String>,
    pub role: Option<String>,
    pub packages: Vec<String>,
    pub packages_mac: Vec<String>,
    pub packages_linux: Vec<String>,
}

/// A bundle's tokens for a machine: none when its gate skips the machine,
/// else its packages and the ones for the machine's OS.
pub open spec fn bundle_tokens(b: PackageBundle, m: Machine) -> Seq<Seq<char>> {
    if gated_spec(opt_str(b.os), opt_str(b.role), m.os@, opt_str(m.role)) {
        Seq::empty()
    } else {
        str_views(b.packages@) + if m.os@ == "mac"@ {
            str_views(b.packages_mac@)
        } else if m.os@ == "linux"@ {
            str_views(b.packages_linux@)
        } else {
            Seq::empty()
        }
    }
}

pub open spec fn bundles_tokens(bs: Seq<PackageBundle>, m: Machine) -> Seq<Seq<char>>
    decreases bs.len(),
{
    if bs.len() == 0 {
        Seq::empty()
    } else {
        bundles_tokens(bs.drop_last(), m) + bundle_tokens(bs.last(), m)
    }
}

/// A Brewfile's token lines: each line trimmed, blanks and comments left out.
pub open spec fn brewfile_tokens(ls: Seq<Seq<char>>) -> Seq<Seq<char>>
    decreases ls.len(),
{
    if ls.len() == 0 {
        Seq::empty()
    } else {
        let t = trim(ls.last());
        if t.len() > 0 && t[0] != '#' {
            brewfile_tokens(ls.drop_last()).push(t)
        } else {
            brewfile_tokens(ls.drop_last())
        }
    }
}

/// Every token a machine declares, in order: its bundles', its loose
/// list, its Brewfile's.
pub open spec fn raw_tokens(bs: Seq<PackageBundle>, m: Machine, brewfile: Option<Seq<char>>) -> Seq<Seq<char>> {
    bundles_tokens(bs, m) + str_views(m.packages@) + match brewfile {
        Some(c) => brewfile_tokens(lines_of(c)),
        None => Seq::empty(),
    }
}

/// What a package is de-duplicated by: its manager and match name.
pub open spec fn dedup_key(p: PkgV) -> (Manager, Seq<char>) {
    (p.0, match_name_spec(p.0, p.1, p.2))
}

pub open spec fn has_key(acc: Seq<PkgV>, k: (Manager, Seq<char>)) -> bool {
    exists|i: int| 0 <= i < acc.len() && dedup_key(#[trigger] acc[i]) == k
}

/// The tokens parsed in order, the first of each key kept; the first token
/// that does not parse is the error.
pub open spec fn effective_fold(raw: Seq<Seq<char>>) -> Result<Seq<PkgV>, (Seq<char>, PkgError)>
    decreases raw.len(),
{
    if raw.len() == 0 {
        Ok(Seq::empty())
    } else {
        match effective_fold(raw.drop_last()) {
            Err(e) => Err(e),
            Ok(acc) => match parse_spec(raw.last()) {
                Err(e) => Err((raw.last(), e)),
                Ok(p) => if has_key(acc, dedup_key(p)) { Ok(acc) } else { Ok(acc.push(p)) },
            },
        }
    }
}

/// An error stays the fold's answer whatever tokens follow it.
proof fn lemma_err_sticks(raw: Seq<Seq<char>>, k: int)
    requires
        0 <= k <= raw.len(),
        effective_fold(raw.take(k)) is Err,
    ensures
        effective_fold(raw) == effective_fold(raw.take(k)),
    decreases raw.len() - k,
{
    if k < raw.len() {
        assert(raw.take(k + 1).drop_last() =~= raw.take(k));
        lemma_err_sticks(raw, k + 1);
    } else {
        assert(raw.take(k) =~= raw);
    }
}

pub open spec fn pkg_views(v: Seq<Pkg>) -> Seq<PkgV> {
    v.map_values(|p: Pkg| pkg_view(p))
}

fn own(s: &str) -> (r: String)
    ensures
        r@ == s@,
{
    let mut r = String::new();
    push_str(&mut r, s);
    r
}

fn push_all(out: &mut Vec<String>, v: &[String])
    ensures
        str_views(final(out)@) == str_views(old(out)@) + str_views(v@),
{
    let ghost start = str_views(out@);
    let mut i: usize = 0;
    while i < v.len()
        invariant
            i <= v@.len(),
            str_views(out@) == start + str_views(v@).take(i as int),
        decreases v.len() - i,
    {
        let ghost before = str_views(out@);
        out.push(own(v[i].as_str()));
        assert(str_views(out@) =~= before.push(v@[i as int]@));
        assert(str_views(v@).take(i as int + 1) =~= str_views(v@).take(i as int).push(v@[i as int]@));
        i += 1;
    }
    assert(str_views(v@).take(v@.len() as int) =~= str_views(v@));
}

/// Every token the machine declares.
fn gather_tokens(bundles: &[PackageBundle], machine: &Machine, brewfile: Option<&str>) -> (r: Vec<String>)
    ensures
        str_views(r@) == raw_tokens(bundles@, *machine, match brewfile { Some(c) => Some(c@), None => None }),
{
    let mut out: Vec<String> = Vec::new();
    let mut i: usize = 0;
    while i < bundles.len()
        invariant
            i <= bundles@.len(),
            str_views(out@) == bundles_tokens(bundles@.take(i as int), *machine),
        decreases bundles.len() - i,
    {
        let b = &bundles[i];
        proof {
            let t = bundles@.take(i as int + 1);
            assert(t.drop_last() =~= bundles@.take(i as int));
            assert(t.last() == *b);
        }
        if !gated(&b.os, &b.role, machine) {
            push_all(&mut out, b.packages.as_slice());
            if str_eq(machine.os.as_str(), "mac") {
                push_all(&mut out, b.packages_mac.as_slice());
            } else if str_eq(machine.os.as_str(), "linux") {
                push_all(&mut out, b.packages_linux.as_slice());
            } else {
                assert(str_views(out@) =~= str_views(out@) + Seq::<Seq<char>>::empty());
            }
        } else {
            assert(str_views(out@) =~= str_views(out@) + Seq::<Seq<char>>::empty());
        }
        i += 1;
    }
    assert(bundles@.take(bundles@.len() as int) =~= bundles@);
    push_all(&mut out, machine.packages.as_slice());
    let ghost mid = str_views(out@);
    match brewfile {
        None => {
            assert(str_views(out@) =~= mid + Seq::<Seq<char>>::empty());
        },
        Some(c) => {
            let ls = lines(chars_of(c).as_slice());
            let mut k: usize = 0;
            while k < ls.len()
                invariant
                    k <= ls@.len(),
                    views(ls@) == lines_of(c@),
                    str_views(out@) == mid + brewfile_tokens(views(ls@).take(k as int)),
                decreases ls.len() - k,
            {
                proof {
                    let t = views(ls@).take(k as int + 1);
                    assert(t.drop_last() =~= views(ls@).take(k as int));
                    assert(t.last() == ls@[k as int]@);
                }
                let t = trimmed(ls[k].as_slice());
                if t.len() > 0 && t[0] != '#' {
                    let ghost before = str_views(out@);
                    out.push(string_of(t.as_slice()));
                    assert(str_views(out@) =~= before.push(t@));
                }
                k += 1;
            }
            assert(views(ls@).take(ls@.len() as int) =~= views(ls@));
        },
    }
    out
}

fn key_seen(acc: &Vec<Pkg>, p: &Pkg) -> (r: bool)
    ensures
        r == has_key(pkg_views(acc@), dedup_key(pkg_view(*p))),
{
    let pm = p.match_name();
    let mut i: usize = 0;
    while i < acc.len()
        invariant
            i <= acc@.len(),
            pm@ == match_name_spec(p.manager, p.name@, crate::packages::opt_view(p.id)),
            forall|j: int| 0 <= j < i ==> dedup_key(#[trigger] pkg_views(acc@)[j]) != dedup_key(pkg_view(*p)),
        decreases acc.len() - i,
    {
        let q = &acc[i];
        if q.manager == p.manager && str_eq(q.match_name().as_str(), pm.as_str()) {
            assert(dedup_key(pkg_views(acc@)[i as int]) == dedup_key(pkg_view(*p)));
            return true;
        }
        assert(pkg_views(acc@)[i as int] == pkg_view(*q));
        i += 1;
    }
    false
}

/// The machine's effective package set: every declared token parsed, the
/// first declaration of each package kept, or the first token that does
/// not parse. `brewfile` is the machine's Brewfile, when it declares one
/// (empty when the file does not exist yet).
pub fn effective_set(bundles: &[PackageBundle], machine: &Machine, brewfile: Option<&str>) -> (r: Result<Vec<Pkg>, (String, PkgError)>)
    ensures
        match r {
            Ok(v) => effective_fold(raw_tokens(bundles@, *machine, match brewfile { Some(c) => Some(c@), None => None }))
                == Ok::<Seq<PkgV>, (Seq<char>, PkgError)>(pkg_views(v@)),
            Err((l, e)) => effective_fold(raw_tokens(bundles@, *machine, match brewfile { Some(c) => Some(c@), None => None }))
                == Err::<Seq<PkgV>, (Seq<char>, PkgError)>((l@, e)),
        },
{
    let raw = gather_tokens(bundles, machine, brewfile);
    let ghost rv = str_views(raw@);
    let mut out: Vec<Pkg> = Vec::new();
    let mut i: usize = 0;
    assert(rv.take(0) =~= Seq::<Seq<char>>::empty());
    assert(pkg_views(out@) =~= Seq::<PkgV>::empty());
    while i < raw.len()
        invariant
            i <= raw@.len(),
            rv == str_views(raw@),
            rv == raw_tokens(bundles@, *machine, match brewfile { Some(c) => Some(c@), None => None }),
            effective_fold(rv.take(i as int)) == Ok::<Seq<PkgV>, (Seq<char>, PkgError)>(pkg_views(out@)),
        decreases raw.len() - i,
    {
        let ghost t = rv.take(i as int + 1);
        assert(t.drop_last() =~= rv.take(i as int));
        assert(t.last() == raw@[i as int]@);
        match parse(raw[i].as_str()) {
            Err(e) => {
                let l = own(raw[i].as_str());
                proof {
                    assert(effective_fold(rv.take(i as int + 1)) == Err::<Seq<PkgV>, (Seq<char>, PkgError)>((l@, e)));
                    lemma_err_sticks(rv, i as int + 1);
                    assert(rv.take(rv.len() as int) =~= rv);
                }
                return Err((l, e));
            },
            Ok(p) => {
                if !key_seen(&out, &p) {
                    let ghost before = pkg_views(out@);
                    let ghost pv = pkg_view(p);
                    out.push(p);
                    assert(pkg_views(out@) =~= before.push(pv));
                }
            },
        }
        i += 1;
    }
    assert(rv.take(raw@.len() as int) =~= rv);
    Ok(out)
}

proof fn lemma_bundle_in_bundles(bs: Seq<PackageBundle>, m: Machine, j: int, t: Seq<char>)
    requires
        0 <= j < bs.len(),
        bundle_tokens(bs[j], m).contains(t),
    ensures
        bundles_tokens(bs, m).contains(t),
    decreases bs.len(),
{
    let pre = bs.drop_last();
    let a = bundles_tokens(pre, m);
    let b = bundle_tokens(bs.last(), m);
    assert(bundles_tokens(bs, m) == a + b);
    if j == bs.len() - 1 {
        let k = choose|k: int| 0 <= k < b.len() && b[k] == t;
        assert((a + b)[a.len() + k] == t);
    } else {
        assert(pre[j] == bs[j]);
        lemma_bundle_in_bundles(pre, m, j, t);
        let k = choose|k: int| 0 <= k < a.len() && a[k] == t;
        assert((a + b)[k] == t);
    }
}

/// A bundle whose gate lets the machine in contributes every one of its
/// common packages, and those it lists for the machine's OS: `packages_linux`
/// on a Linux machine and `packages_mac` on a Mac, to the tokens the
/// machine declares.
pub proof fn law_ungated_bundle_packages_are_declared(
    bs: Seq<PackageBundle>,
    m: Machine,
    brewfile: Option<Seq<char>>,
    j: int,
    i: int,
)
    requires
        0 <= j < bs.len(),
        !gated_spec(opt_str(bs[j].os), opt_str(bs[j].role), m.os@, opt_str(m.role)),
    ensures
        0 <= i < bs[j].packages@.len() ==> raw_tokens(bs, m, brewfile).contains(bs[j].packages@[i]@),
        m.os@ == "linux"@ && 0 <= i < bs[j].packages_linux@.len() ==> raw_tokens(bs, m, brewfile).contains(
            bs[j].packages_linux@[i]@,
        ),
        m.os@ == "mac"@ && 0 <= i < bs[j].packages_mac@.len() ==> raw_tokens(bs, m, brewfile).contains(
            bs[j].packages_mac@[i]@,
        ),
{
    let b = bs[j];
    let bt = bundle_tokens(b, m);
    let common = str_views(b.packages@);
    let rest = bt.skip(common.len() as int);
    assert(bt == common + (if m.os@ == "mac"@ {
        str_views(b.packages_mac@)
    } else if m.os@ == "linux"@ {
        str_views(b.packages_linux@)
    } else {
        Seq::<Seq<char>>::empty()
    }));
    let raw = raw_tokens(bs, m, brewfile);
    let bts = bundles_tokens(bs, m);
    let tail = str_views(m.packages@) + match brewfile {
        Some(c) => brewfile_tokens(lines_of(c)),
        None => Seq::empty(),
    };
    assert(raw == bts + tail);
    if 0 <= i < b.packages@.len() {
        let t = b.packages@[i]@;
        assert(bt[i] == t);
        lemma_bundle_in_bundles(bs, m, j, t);
        let k = choose|k: int| 0 <= k < bts.len() && bts[k] == t;
        assert(raw[k] == t);
    }
    if m.os@ == "linux"@ && 0 <= i < b.packages_linux@.len() {
        let t = b.packages_linux@[i]@;
        if m.os@ == "mac"@ {
            reveal_strlit("mac");
            reveal_strlit("linux");
            assert("mac"@[0] != "linux"@[0]);
        }
        assert(bt[common.len() + i] == t);
        lemma_bundle_in_bundles(bs, m, j, t);
        let k = choose|k: int| 0 <= k < bts.len() && bts[k] == t;
        assert(raw[k] == t);
    }
    if m.os@ == "mac"@ && 0 <= i < b.packages_mac@.len() {
        let t = b.packages_mac@[i]@;
        assert(bt[common.len() + i] == t);
        lemma_bundle_in_bundles(bs, m, j, t);
        let k = choose|k: int| 0 <= k < bts.len() && bts[k] == t;
        assert(raw[k] == t);
    }
}

/// A bundle whose gate skips the machine contributes nothing; one that
/// lets it in contributes its common packages and those for the machine's
/// OS, no more: as many tokens as those lists hold.
pub proof fn law_bundle_contribution_size(b: PackageBundle, m: Machine)
    ensures
        gated_spec(opt_str(b.os), opt_str(b.role), m.os@, opt_str(m.role)) ==> bundle_tokens(b, m).len() == 0,
        !gated_spec(opt_str(b.os), opt_str(b.role), m.os@, opt_str(m.role)) ==> bundle_tokens(b, m).len() == b.packages@.len()
            + (if m.os@ == "linux"@ {
            b.packages_linux@.len()
        } else if m.os@ == "mac"@ {
            b.packages_mac@.len()
        } else {
            0
        }),
{
    reveal_strlit("mac");
    reveal_strlit("linux");
    assert("mac"@[0] != "linux"@[0]);
}

} // verus!
