//! The fleet layer: `fleet.toml` machines composing app bundles of ordered
//! `copy` steps, the steps that apply to a machine, their drift, and what an
//! install changed. Reading the folder and deploying files are the caller's.
use vstd::prelude::*;
use crate::manifest::{str_views, Vars};
use crate::text::{chars_of, push_str, same};

verus! {

/// A machine in `fleet.toml`.
#[derive(Debug, Clone, PartialEq, Eq)]
pub struct FleetMachine {
    pub name: String,
    /// `mac` or `linux`.
    pub os: String,
    pub role: Option<String>,
    pub apps: Vec<String>,
}

/// `fleet.toml`: the machines and the declared template variables.
#[derive(Debug, Clone, PartialEq, Eq)]
pub struct FleetToml {
    pub machine: Vec<FleetMachine>,
    pub vars: Vars,
}

/// One bundle step (the `copy` primitive).
#[derive(Debug, Clone, PartialEq, Eq)]
pub struct FleetStep {
    pub copy: Option<String>,
    pub to: Option<String>,
    pub template: bool,
    pub seed: bool,
    pub mode: Option<String>,
    /// Skip unless the machine's OS is this.
    pub os: Option<String>,
}

/// A step and the app it came from.
#[derive(Debug, Clone, PartialEq, Eq)]
pub struct Resolved {
    pub app: String,
    pub step: FleetStep,
}

/// A step applies to a machine unless it is gated to another OS.
pub open spec fn applies_to(step: FleetStep, os: Seq<char>) -> bool {
    match step.os {
        Some(o) => o@ == os,
        None => true,
    }
}

/// The steps of each app in order, the ones gated to another OS dropped,
/// each tagged with its app.
pub open spec fn resolved_spec(apps: Seq<Seq<char>>, bundles: Seq<Vec<FleetStep>>, os: Seq<char>) -> Seq<(Seq<char>, FleetStep)>
    decreases apps.len(),
{
    if apps.len() == 0 || bundles.len() == 0 {
        Seq::empty()
    } else {
        let a = apps.last();
        resolved_spec(apps.drop_last(), bundles.drop_last(), os)
            + bundles.last()@.filter(|s: FleetStep| applies_to(s, os)).map_values(|s: FleetStep| (a, s))
    }
}

pub open spec fn resolved_views(v: Seq<Resolved>) -> Seq<(Seq<char>, FleetStep)> {
    v.map_values(|r: Resolved| (r.app@, r.step))
}

/// Every step for a machine: `bundles` holds each of its apps' steps, in
/// the order of its `apps`.
pub fn resolve_steps(machine: &FleetMachine, bundles: Vec<Vec<FleetStep>>) -> (r: Vec<Resolved>)
    requires
        bundles@.len() == machine.apps@.len(),
    ensures
        resolved_views(r@) == resolved_spec(str_views(machine.apps@), bundles@, machine.os@),
{
    let ghost all = bundles@;
    let ghost apps = str_views(machine.apps@);
    let n = bundles.len();
    let mut rest = bundles;
    let mut out: Vec<Resolved> = Vec::new();
    let osc = chars_of(machine.os.as_str());
    let mut i: usize = 0;
    while rest.len() > 0
        invariant
            i + rest@.len() == n,
            all.len() == n,
            apps.len() == n,
            n == machine.apps@.len(),
            apps == str_views(machine.apps@),
            osc@ == machine.os@,
            rest@ == all.subrange(i as int, n as int),
            resolved_views(out@) == resolved_spec(apps.take(i as int), all.take(i as int), machine.os@),
        decreases rest.len(),
    {
        let ghost old_rest = rest@;
        let steps = rest.remove(0);
        assert(steps == all[i as int]);
        let ghost head = resolved_views(out@);
        let ghost a = apps[i as int];
        let ghost kept = steps@.filter(|s: FleetStep| applies_to(s, machine.os@));
        let m = steps.len();
        let mut srest = steps;
        let ghost sall = srest@;
        let mut j: usize = 0;
        while srest.len() > 0
            invariant
                j + srest@.len() == m,
                sall.len() == m,
                srest@ == sall.subrange(j as int, m as int),
                i < n,
                n == machine.apps@.len(),
                osc@ == machine.os@,
                apps == str_views(machine.apps@),
                a == apps[i as int],
                resolved_views(out@) == head + sall.take(j as int).filter(|s: FleetStep| applies_to(s, machine.os@)).map_values(|s: FleetStep| (a, s)),
            decreases srest.len(),
        {
            let ghost os2 = srest@;
            let s = srest.remove(0);
            assert(s == sall[j as int]);
            let keep = match &s.os {
                Some(o) => same(chars_of(o.as_str()).as_slice(), osc.as_slice()),
                None => true,
            };
            proof {
                let t = sall.take(j as int + 1);
                assert(t.drop_last() =~= sall.take(j as int));
                assert(t.last() == s);
                reveal(Seq::filter);
                assert(keep == applies_to(s, machine.os@));
            }
            if keep {
                let mut app = String::new();
                push_str(&mut app, machine.apps[i].as_str());
                assert(app@ == a);
                let ghost before = resolved_views(out@);
                let ghost sv = s;
                out.push(Resolved { app, step: s });
                assert(resolved_views(out@) =~= before.push((a, sv)));
                assert(sall.take(j as int + 1).filter(|s: FleetStep| applies_to(s, machine.os@)).map_values(|s: FleetStep| (a, s))
                    =~= sall.take(j as int).filter(|s: FleetStep| applies_to(s, machine.os@)).map_values(|s: FleetStep| (a, s)).push((a, sv)));
            }
            j += 1;
        }
        proof {
            assert(sall.take(m as int) =~= sall);
            let ta = apps.take(i as int + 1);
            let tb = all.take(i as int + 1);
            assert(ta.drop_last() =~= apps.take(i as int));
            assert(tb.drop_last() =~= all.take(i as int));
            assert(ta.last() == a);
            assert(tb.last()@ == sall);
            assert(old_rest.drop_first() =~= rest@);
            assert(rest@ =~= all.subrange(i as int + 1, n as int));
        }
        i += 1;
    }
    assert(apps.take(n as int) =~= apps);
    assert(all.take(n as int) =~= all);
    out
}

/// A deployed file against its source.
#[derive(Debug, Clone, Copy, PartialEq, Eq, Structural)]
pub enum FileState {
    Missing,
    InSync,
    Drifted,
}

impl FileState {
    pub fn label(self) -> (r: &'static str)
        ensures
            r@ == match self {
                FileState::Missing => "missing"@,
                FileState::InSync => "in sync"@,
                FileState::Drifted => "drifted"@,
            },
    {
        match self {
            FileState::Missing => "missing",
            FileState::InSync => "in sync",
            FileState::Drifted => "drifted",
        }
    }

    pub fn is_ok(self) -> (r: bool)
        ensures
            r == (self == FileState::InSync),
    {
        match self {
            FileState::InSync => true,
            _ => false,
        }
    }
}

fn same_bytes(a: &[u8], b: &[u8]) -> (r: bool)
    ensures
        r == (a@ == b@),
{
    if a.len() != b.len() {
        return false;
    }
    let mut i: usize = 0;
    while i < a.len()
        invariant
            i <= a@.len(),
            a@.len() == b@.len(),
            forall|j: int| 0 <= j < i ==> a@[j] == b@[j],
        decreases a.len() - i,
    {
        if a[i] != b[i] {
            return false;
        }
        i += 1;
    }
    assert(a@ =~= b@);
    true
}

/// `copy` drift: the source's bytes against the target's (none when the
/// target is absent).
pub fn copy_state(want: &[u8], have: Option<&[u8]>) -> (r: FileState)
    ensures
        r == match have {
            None => FileState::Missing,
            Some(h) => if h@ == want@ { FileState::InSync } else { FileState::Drifted },
        },
{
    match have {
        None => FileState::Missing,
        Some(h) => if same_bytes(h, want) { FileState::InSync } else { FileState::Drifted },
    }
}

/// One drift finding.
#[derive(Debug, Clone, PartialEq, Eq)]
pub struct DriftItem {
    pub app: String,
    pub target: String,
    pub state: FileState,
}

/// What an install did with one `copy` step: previewed it (a dry run, with
/// its state) or applied it (whether that changed the file).
#[derive(Debug, Clone, Copy, PartialEq, Eq, Structural)]
pub enum CopyOutcome {
    Previewed(FileState),
    Applied(bool),
}

pub open spec fn changed(o: CopyOutcome) -> bool {
    match o {
        CopyOutcome::Previewed(s) => s != FileState::InSync,
        CopyOutcome::Applied(c) => c,
    }
}

pub open spec fn changed_count(os: Seq<CopyOutcome>) -> nat
    decreases os.len(),
{
    if os.len() == 0 {
        0
    } else {
        changed_count(os.drop_last()) + if changed(os.last()) { 1nat } else { 0nat }
    }
}

/// An install's `(changed, total)` over its `copy` steps: a dry run counts
/// a step that is not in sync, a real run a step whose file it changed.
pub fn run_install(outcomes: &[CopyOutcome]) -> (r: (usize, usize))
    ensures
        r.0 == changed_count(outcomes@),
        r.1 == outcomes@.len(),
{
    let mut n: usize = 0;
    let mut i: usize = 0;
    while i < outcomes.len()
        invariant
            i <= outcomes@.len(),
            n == changed_count(outcomes@.take(i as int)),
            n <= i,
        decreases outcomes.len() - i,
    {
        let t = match outcomes[i] {
            CopyOutcome::Previewed(s) => !s.is_ok(),
            CopyOutcome::Applied(c) => c,
        };
        proof {
            let tk = outcomes@.take(i as int + 1);
            assert(tk.drop_last() =~= outcomes@.take(i as int));
            assert(tk.last() == outcomes@[i as int]);
        }
        if t {
            n += 1;
        }
        i += 1;
    }
    assert(outcomes@.take(outcomes@.len() as int) =~= outcomes@);
    (n, outcomes.len())
}

} // verus!
