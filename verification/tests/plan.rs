use temper::plan::{step_finding, StepSeen};
use temper::primitives::FileState;
use temper::drift::is_assert_kind;
use temper::packages::Manager;
use temper::plan::{answer_commands, kind_spec, kind_table, remediations, Answer, Finding, PrunePlan};

fn f(kind: &'static str, ok: bool) -> Finding {
    Finding {
        app: "a".into(),
        kind,
        target: "t".into(),
        ok,
        status: "s".into(),
        detail: None,
    }
}

fn cmds_for(items: &[Finding]) -> Vec<String> {
    remediations(items).iter().map(|r| r.command.clone()).collect()
}

#[test]
fn the_count_covers_every_list_prune_acts_on() {
    let p = PrunePlan {
        packages: vec![(Manager::Brew, "jq".into())],
        untrust: vec!["user/tap".into()],
        extensions: vec!["a@x".into()],
        rpm_ostree: vec!["vpn".into()],
    };
    assert!(!p.is_empty());
    assert_eq!(p.len(), 4, "a list prune acts on is not being counted");

    for one in [
        PrunePlan { packages: p.packages.clone(), ..Default::default() },
        PrunePlan { untrust: p.untrust.clone(), ..Default::default() },
        PrunePlan { extensions: p.extensions.clone(), ..Default::default() },
        PrunePlan { rpm_ostree: p.rpm_ostree.clone(), ..Default::default() },
    ] {
        assert!(!one.is_empty());
        assert_eq!(one.len(), 1);
    }
    assert!(PrunePlan::default().is_empty());
    assert_eq!(PrunePlan::default().len(), 0);
}

#[test]
fn missing_and_extra_offer_both_directions() {
    let items = vec![f("package", false), f("package-extra", false)];
    let cmds = cmds_for(&items);
    assert!(cmds.contains(&"temper install --packages-only".to_string()));
    assert!(cmds.contains(&"temper prune".to_string()));
    assert!(cmds.contains(&"temper reconcile".to_string()));
    assert!(!cmds
        .iter()
        .any(|c| c.split_whitespace().count() > 3 && !c.contains("--")));
    assert!(!cmds.iter().any(|c| c.contains("dump") || c.contains("init")));
}

#[test]
fn every_kind_answers_both_directions() {
    for spec in kind_table().iter() {
        assert!(!spec.converge.is_empty(), "kind `{}` says nothing about changing the MACHINE", spec.name);
        assert!(!spec.absorb.is_empty(), "kind `{}` says nothing about changing the SPEC", spec.name);
        for a in spec.converge.iter().chain(spec.absorb.iter()) {
            if let Answer::NA(why) | Answer::Hand { why, .. } = a {
                assert!(why.len() > 12, "kind `{}` declines a direction without a real reason", spec.name);
            }
        }
    }
}

#[test]
fn remediations_never_invent_a_verb_the_registry_lacks() {
    for spec in kind_table().iter() {
        let mut allowed = spec.converge_verbs();
        allowed.extend(spec.absorb_verbs());
        allowed.push("temper drift");
        if allowed.contains(&"temper install") {
            allowed.push("temper undo");
        }
        for r in remediations(&[f(spec.name, false)]) {
            assert!(
                allowed.contains(&r.command.as_str()),
                "a `{}` finding makes drift offer `{}`, which the registry does not list for it",
                spec.name,
                r.command
            );
        }
    }
}

#[test]
fn registered_verbs_are_actually_emitted() {
    for spec in kind_table().iter() {
        let kind = spec.name;
        let mut wanted = spec.converge_verbs();
        wanted.extend(spec.absorb_verbs());
        if wanted.is_empty() {
            continue;
        }
        let items = vec![f(kind, false)];
        let got = cmds_for(&items);
        for w in wanted {
            assert!(
                got.contains(&w.to_string()),
                "kind `{kind}` claims `{w}` resolves it, but drift never offers that command (got {got:?})"
            );
        }
    }
}

#[test]
fn dconf_drift_offers_both_directions() {
    let cmds = cmds_for(&[f("dconf-key", false)]);
    assert!(cmds.contains(&"temper restore-dconf".to_string()));
    assert!(cmds.contains(&"temper reconcile".to_string()));
    assert!(cmds.contains(&"temper snapshot-dconf".to_string()));
    assert!(!cmds.contains(&"temper install".to_string()));
}

#[test]
fn a_live_only_dconf_key_never_offers_restore() {
    let cmds = cmds_for(&[f("dconf-extra", false)]);
    assert!(!cmds.contains(&"temper restore-dconf".to_string()));
    assert!(cmds.contains(&"temper reconcile".to_string()));
}

#[test]
fn config_drift_offers_reapply_and_undo() {
    let cmds = cmds_for(&[f("copy", false)]);
    assert!(cmds.contains(&"temper install".to_string()));
    assert!(cmds.contains(&"temper undo".to_string()));
    assert!(!cmds
        .iter()
        .any(|c| c.contains("prune") || c.contains("reconcile")));
}

#[test]
fn all_in_sync_yields_no_remediation() {
    let items = vec![f("copy", true), f("package", true)];
    assert!(remediations(&items).is_empty());
}

#[test]
fn answer_commands_are_sorted_distinct_and_complete() {
    let cmds = answer_commands();
    assert_eq!(
        cmds,
        vec![
            "temper install",
            "temper install --packages-only",
            "temper prune",
            "temper reconcile",
            "temper restore-dconf",
            "temper snapshot-dconf",
        ]
    );
}

#[test]
fn an_unknown_kind_has_no_registry_entry() {
    assert!(kind_spec("no-such-kind").is_none());
    let k = kind_spec("dconf-key").unwrap();
    assert_eq!(k.converge_verbs(), vec!["temper restore-dconf"]);
    assert_eq!(k.absorb_verbs(), vec!["temper reconcile", "temper snapshot-dconf"]);
}

#[test]
fn a_failed_assertion_offers_drift_and_nothing_else() {
    let items = vec![f("absent", false)];
    let rems = remediations(&items);
    let cmds: Vec<&str> = rems.iter().map(|r| r.command.as_str()).collect();
    assert_eq!(cmds, vec!["temper drift"]);
}

#[test]
fn prune_label_names_what_is_removed() {
    let items = vec![f("brew-trust-extra", false)];
    let rems = remediations(&items);
    let prune = rems.iter().find(|r| r.command == "temper prune").unwrap();
    assert_eq!(prune.label, "untrust taps not in the spec (asks first)");
    let rec = rems.iter().find(|r| r.command == "temper reconcile").unwrap();
    assert_eq!(
        rec.label,
        "interactively add extras / drop entries you removed on purpose (packages, tap-trust)"
    );
}

use temper::plan::{lifecycle, StepShape};

fn shape() -> StepShape {
    StepShape { run: None, copy: false, block: false, setkey: false, script: false, profile: false, sysfile: false, seed: false }
}

#[test]
fn a_profile_is_install_only_so_update_never_pops_a_dialog() {
    let mut p = shape();
    p.profile = true;
    assert_eq!(lifecycle(&p), "install");
    assert!(!matches!(lifecycle(&p).as_str(), "always" | "ensure"));
}

#[test]
fn an_explicit_run_still_wins_over_the_default() {
    let mut p = shape();
    p.profile = true;
    p.run = Some("always".into());
    assert_eq!(lifecycle(&p), "always");
}

#[test]
fn a_copy_is_still_always() {
    let mut c = shape();
    c.copy = true;
    assert_eq!(lifecycle(&c), "always");
}

#[test]
fn step_findings_follow_the_observed_state() {
    let f = step_finding("zsh", &StepSeen::Copy("~/.zshrc".to_string(), FileState::Drifted)).unwrap();
    assert_eq!((f.kind, f.target.as_str(), f.ok, f.status.as_str()), ("copy", "~/.zshrc", false, "drifted"));
    let f = step_finding(
        "git",
        &StepSeen::SetKey("~/.gitconfig".to_string(), "user.name".to_string(), FileState::Drifted, Some(("a".to_string(), "b".to_string()))),
    )
    .unwrap();
    assert_eq!(f.target, "~/.gitconfig:user.name");
    assert_eq!(f.detail.as_deref(), Some("want a, have b"));
    let f = step_finding("x", &StepSeen::Exec("setup.sh".to_string(), None)).unwrap();
    assert_eq!((f.kind, f.ok, f.status.as_str()), ("exec", true, "no drift-check"));
    let f = step_finding("x", &StepSeen::Sysfile("/etc/x".to_string(), FileState::Unavailable)).unwrap();
    assert!(f.ok && f.status == "unavailable");
    assert!(step_finding("x", &StepSeen::Unevaluated).is_none());
}

#[test]
fn assertion_kinds_are_registered_and_never_converged() {
    for k in ["absent", "contains-line", "mode", "executable-resolves", "not-member", "shell", "json-semantic"] {
        assert!(is_assert_kind(k));
        let spec = kind_spec(k).unwrap_or_else(|| panic!("`{k}` is not registered"));
        assert!(spec.converge_verbs().is_empty(), "`{k}` offers a converge verb");
    }
    assert!(!is_assert_kind("unknown"));
    assert!(kind_spec("unknown").is_some());
}

#[test]
fn an_update_upgrades_only_where_packages_are_declared() {
    use_update_upgrades();
}

fn use_update_upgrades() {
    let jq = temper::packages::parse("brew \"jq\"").unwrap();
    assert!(temper::plan::update_upgrades(&[jq]));
    assert!(!temper::plan::update_upgrades(&[]));
}

fn bare_assert() -> temper::manifest::Assert {
    temper::manifest::Assert {
        absent: None,
        contains_line: None,
        mode: None,
        executable_resolves: None,
        not_member: None,
        shell: None,
        json_semantic: None,
        severity: None,
        message: None,
        os: None,
        role: None,
    }
}

fn observations(asserts: Vec<temper::plan::AssertObservation>) -> temper::plan::DriftObservations {
    temper::plan::DriftObservations {
        steps: vec![],
        asserts,
        packages: None,
        trusted: None,
        gext_missing: vec![],
        gext_extras: vec![],
        rpm_extras: vec![],
        rpm_missing: vec![],
        dconf: vec![],
    }
}

#[test]
fn drift_assert_findings_come_from_their_verdicts() {
    let mut gone = bare_assert();
    gone.absent = Some("~/.legacy".into());
    let mut notice = bare_assert();
    notice.absent = Some("~/.old".into());
    notice.severity = Some("notice".into());
    notice.message = Some("still there".into());
    let obs = observations(vec![
        temper::plan::AssertObservation { app: "a".into(), assert: gone, seen: temper::drift::AssertSeen::Exists(true) },
        temper::plan::AssertObservation { app: "b".into(), assert: notice, seen: temper::drift::AssertSeen::Exists(true) },
    ]);
    let fs = temper::plan::run_drift(&obs, &temper::manifest::Ignore::default(), &[]).unwrap();
    assert_eq!(fs.len(), 2);
    assert!(!fs[0].ok);
    assert_eq!(fs[0].status, "should not exist");
    assert!(fs[1].ok);
    assert_eq!(fs[1].status, "notice — still there");
    for f in &fs {
        assert!(kind_spec(f.kind).is_some());
        assert!(!(f.status.starts_with("manual — ") && !f.ok));
    }
}

#[test]
fn drift_fails_on_an_assert_with_no_check() {
    let obs = observations(vec![temper::plan::AssertObservation {
        app: "a".into(),
        assert: bare_assert(),
        seen: temper::drift::AssertSeen::Exists(false),
    }]);
    assert_eq!(
        temper::plan::run_drift(&obs, &temper::manifest::Ignore::default(), &[]),
        Err(temper::drift::EvalError::NoCheck)
    );
}

#[test]
fn update_with_nothing_declared_upgrades_nothing() {
    let before = vec![("brew:jq".to_string(), "1.6".to_string())];
    let after = vec![("brew:jq".to_string(), "1.7".to_string())];
    let r = temper::plan::update_report(&[], &before, &after, temper::plan::InstallTally::new());
    assert_eq!(r.packages, 0);
    assert_eq!(r.upgraded, None);
    assert!(!r.reboot);
    let jq = temper::packages::parse("brew \"jq\"").unwrap();
    let r = temper::plan::update_report(&[jq], &before, &after, temper::plan::InstallTally::new());
    assert_eq!(r.packages, 1);
    assert_eq!(r.upgraded, Some(1));
}
