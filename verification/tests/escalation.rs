use temper::escalation::{needs_root, root_steps, RootProbe};
use temper::plan::StepShape;

fn shape(run: Option<&str>, script: bool, sysfile: bool, copy: bool) -> StepShape {
    StepShape { run: run.map(|r| r.to_string()), copy, block: false, setkey: false, script, profile: false, sysfile, seed: false }
}

fn probe(s: StepShape, gate: bool, sysfile: Option<(&str, bool)>, sudo: Option<(&str, bool)>) -> RootProbe {
    RootProbe {
        shape: s,
        ensure_applies: false,
        gate_applies: gate,
        sysfile: sysfile.map(|(t, i)| (t.to_string(), i)),
        sudo_script: sudo.map(|(t, i)| (t.to_string(), i)),
    }
}

#[test]
fn sysfile_and_declared_sudo_are_split_by_who_escalates() {
    let probes = vec![
        probe(shape(None, false, true, false), true, Some(("/etc/x.conf", false)), None),
        probe(shape(None, true, false, false), true, None, Some(("assets/needs-root.sh", false))),
    ];
    let (own, scripts) = root_steps(&probes, false);
    assert_eq!(own, vec!["/etc/x.conf"]);
    assert_eq!(scripts, vec!["assets/needs-root.sh"]);
}

#[test]
fn a_script_whose_check_passes_costs_no_password() {
    let probes = vec![probe(shape(None, true, false, false), true, None, Some(("assets/needs-root.sh", true)))];
    let (own, scripts) = root_steps(&probes, false);
    assert!(own.is_empty() && scripts.is_empty());
}

#[test]
fn a_sysfile_already_in_sync_costs_no_password() {
    let in_sync = vec![probe(shape(None, false, true, false), true, Some(("/etc/dest.conf", true)), None)];
    assert!(root_steps(&in_sync, false).0.is_empty());
    let drifted = vec![probe(shape(None, false, true, false), true, Some(("/etc/dest.conf", false)), None)];
    assert_eq!(root_steps(&drifted, false).0.len(), 1);
}

#[test]
fn a_run_with_nothing_to_escalate_never_asks() {
    let probes = vec![
        probe(shape(None, true, false, false), true, None, None),
        probe(shape(None, false, false, true), true, None, None),
    ];
    let (own, scripts) = root_steps(&probes, false);
    assert!(own.is_empty() && scripts.is_empty());
    assert!(!needs_root(&[], &own, &scripts));
    assert!(needs_root(&["mactex".to_string()], &own, &scripts));
}

#[test]
fn a_step_that_will_be_skipped_costs_no_password() {
    let probes = vec![
        probe(shape(None, true, false, false), false, None, Some(("assets/gated.sh", false))),
        probe(shape(Some("manual"), true, false, false), true, None, Some(("assets/manual.sh", false))),
    ];
    let (own, scripts) = root_steps(&probes, false);
    assert!(own.is_empty() && scripts.is_empty(), "{own:?} {scripts:?}");
}

#[test]
fn an_update_asks_only_for_what_it_reapplies() {
    let mut ensure = probe(shape(Some("ensure"), false, true, false), true, Some(("/etc/e", false)), None);
    let always = probe(shape(None, false, true, false), true, Some(("/etc/a", false)), None);
    let install_only = probe(shape(Some("install"), false, true, false), true, Some(("/etc/i", false)), None);
    let (own, _) = root_steps(&[ensure.clone(), always.clone(), install_only.clone()], true);
    assert_eq!(own, vec!["/etc/a"]);
    ensure.ensure_applies = true;
    let (own, _) = root_steps(&[ensure, always, install_only], true);
    assert_eq!(own, vec!["/etc/e", "/etc/a"]);
}
