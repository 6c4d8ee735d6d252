//! Which steps of a run will need root, so the password is asked for once,
//! up front, and only when something actually needs it: temper's own
//! escalations (a `sysfile` that is not in sync) kept apart from scripts
//! that escalate for themselves (an `exec` with `sudo`).
use vstd::prelude::*;
use crate::manifest::str_views;
use crate::plan::{is_step, is_step_spec, lifecycle, lifecycle_spec, str_eq, StepShape};
use crate::text::push_str;

verus! {

/// What was learnt of one step before the run.
#[derive(Debug, Clone)]
pub struct RootProbe {
    pub shape: StepShape,
    /// For an update, whether an `ensure` step will apply.
    pub ensure_applies: bool,
    /// Whether its presence gate lets it apply.
    pub gate_applies: bool,
    /// A `sysfile` step's destination, and whether it is already in sync.
    pub sysfile: Option<(String, bool)>,
    /// An `exec` with `sudo`: its script label, and whether its check passes
    /// (so the script will be skipped).
    pub sudo_script: Option<(String, bool)>,
}

/// The step will run in this run: a primitive step, past the lifecycle
/// filter (an update applies `always` and applying `ensure` steps; an
/// install all but `manual` ones) and past its presence gate.
pub open spec fn will_run(p: RootProbe, update: bool) -> bool {
    &&& is_step_spec(p.shape)
    &&& if update {
        lifecycle_spec(p.shape) == "always"@ || (lifecycle_spec(p.shape) == "ensure"@ && p.ensure_applies)
    } else {
        lifecycle_spec(p.shape) != "manual"@
    }
    &&& p.gate_applies
}

/// temper's own escalations: each running `sysfile` that is not in sync.
pub open spec fn own_root(ps: Seq<RootProbe>, update: bool) -> Seq<Seq<char>>
    decreases ps.len(),
{
    if ps.len() == 0 {
        Seq::empty()
    } else {
        let p = ps.last();
        let rest = own_root(ps.drop_last(), update);
        match p.sysfile {
            Some(s) => if will_run(p, update) && !s.1 { rest.push(s.0@) } else { rest },
            None => rest,
        }
    }
}

/// Scripts that escalate for themselves: each running `sudo` exec (that is
/// not a `sysfile`) whose check does not already pass.
pub open spec fn script_root(ps: Seq<RootProbe>, update: bool) -> Seq<Seq<char>>
    decreases ps.len(),
{
    if ps.len() == 0 {
        Seq::empty()
    } else {
        let p = ps.last();
        let rest = script_root(ps.drop_last(), update);
        match (p.sysfile, p.sudo_script) {
            (None, Some(s)) => if will_run(p, update) && !s.1 { rest.push(s.0@) } else { rest },
            _ => rest,
        }
    }
}

fn runs(p: &RootProbe, update: bool) -> (r: bool)
    ensures
        r == will_run(*p, update),
{
    if !is_step(&p.shape) || !p.gate_applies {
        return false;
    }
    let lc = lifecycle(&p.shape);
    if update {
        str_eq(lc.as_str(), "always") || (str_eq(lc.as_str(), "ensure") && p.ensure_applies)
    } else {
        !str_eq(lc.as_str(), "manual")
    }
}

/// `(temper's own escalations, scripts that escalate for themselves)` for
/// the steps of a run, in step order.
pub fn root_steps(probes: &[RootProbe], update: bool) -> (r: (Vec<String>, Vec<String>))
    ensures
        str_views(r.0@) == own_root(probes@, update),
        str_views(r.1@) == script_root(probes@, update),
{
    let mut own: Vec<String> = Vec::new();
    let mut scripts: Vec<String> = Vec::new();
    let mut i: usize = 0;
    while i < probes.len()
        invariant
            i <= probes@.len(),
            str_views(own@) == own_root(probes@.take(i as int), update),
            str_views(scripts@) == script_root(probes@.take(i as int), update),
        decreases probes.len() - i,
    {
        let p = &probes[i];
        proof {
            let t = probes@.take(i as int + 1);
            assert(t.drop_last() =~= probes@.take(i as int));
            assert(t.last() == *p);
        }
        if runs(p, update) {
            match &p.sysfile {
                Some((to, in_sync)) => {
                    if !*in_sync {
                        let mut s = String::new();
                        push_str(&mut s, to.as_str());
                        let ghost before = str_views(own@);
                        own.push(s);
                        assert(str_views(own@) =~= before.push(to@));
                    }
                },
                None => match &p.sudo_script {
                    Some((label, passes)) => {
                        if !*passes {
                            let mut s = String::new();
                            push_str(&mut s, label.as_str());
                            let ghost before = str_views(scripts@);
                            scripts.push(s);
                            assert(str_views(scripts@) =~= before.push(label@));
                        }
                    },
                    None => {},
                },
            }
        }
        i += 1;
    }
    assert(probes@.take(probes@.len() as int) =~= probes@);
    (own, scripts)
}

/// Whether the run asks for root at all: only when a cask, a step of
/// temper's own, or a script needs it.
pub fn needs_root(casks: &[String], own: &[String], scripts: &[String]) -> (r: bool)
    ensures
        r == (casks@.len() > 0 || own@.len() > 0 || scripts@.len() > 0),
{
    casks.len() > 0 || own.len() > 0 || scripts.len() > 0
}

} // verus!
