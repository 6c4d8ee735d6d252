use temper::reconcile::{AddItem, ReconcilePlan};
use temper::packages::{parse, Manager};
use temper::reconcile::{brewfile_with_adds, brewfile_without, sort_brewfile, token_for};

#[test]
fn token_grammar() {
    assert_eq!(token_for(Manager::Brew, "jq"), "brew \"jq\"");
    assert_eq!(
        token_for(Manager::Flatpak, "org.x.App"),
        "flatpak \"org.x.App\""
    );
}

#[test]
fn adds_append_after_newline() {
    assert_eq!(
        brewfile_with_adds("brew \"a\"\n", &["brew \"b\"".into()]),
        "brew \"a\"\nbrew \"b\"\n"
    );
    // no trailing newline in source → one is inserted
    assert_eq!(
        brewfile_with_adds("brew \"a\"", &["brew \"b\"".into()]),
        "brew \"a\"\nbrew \"b\"\n"
    );
    // nothing to add → unchanged
    assert_eq!(brewfile_with_adds("brew \"a\"\n", &[]), "brew \"a\"\n");
}

#[test]
fn drops_remove_exact_lines() {
    let content = "brew \"a\"\nbrew \"gone\"\ncask \"c\"\n";
    assert_eq!(
        brewfile_without(content, &["brew \"gone\"".into()]),
        "brew \"a\"\ncask \"c\"\n"
    );
}

#[test]
fn sort_groups_taps_brews_casks_mas_alphabetically() {
    let input = "cask \"zoom\"\nbrew \"jq\"\ntap \"a/b\"\nbrew \"bat\"\nmas \"App\", id: 1\ncask \"alfred\"\n";
    assert_eq!(
        sort_brewfile(input),
        "tap \"a/b\"\n\nbrew \"bat\"\nbrew \"jq\"\n\ncask \"alfred\"\ncask \"zoom\"\n\nmas \"App\", id: 1\n"
    );
}

#[test]
fn sort_keeps_a_comment_with_its_entry() {
    let input = "brew \"zebra\"\n# my jq\nbrew \"jq\"\n";
    assert_eq!(
        sort_brewfile(input),
        "# my jq\nbrew \"jq\"\nbrew \"zebra\"\n"
    );
}

#[test]
fn sort_pins_leading_header_block() {
    let input = "# machine header\n# line 2\n\nbrew \"zed\"\nbrew \"bat\"\n";
    assert_eq!(
        sort_brewfile(input),
        "# machine header\n# line 2\n\nbrew \"bat\"\nbrew \"zed\"\n"
    );
}

#[test]
fn sort_is_idempotent() {
    let input = "cask \"zoom\"\nbrew \"jq\"\n# c\ntap \"a/b\"\nbrew \"bat\"\n";
    let once = sort_brewfile(input);
    assert_eq!(sort_brewfile(&once), once);
}

#[test]
fn mas_add_token_is_well_formed_grammar() {
    // The token plan() builds for a mas extra must re-parse (carry an id),
    // else it bricks the brewfile with "mas entry needs id" on next read.
    let token = format!("mas \"{}\", id: {}", "Xcode", "497799835");
    let pkg = parse(&token).unwrap();
    assert_eq!(pkg.manager, Manager::Mas);
    assert_eq!(pkg.match_name(), "497799835");
    // even the name-lookup-failed fallback (name == id) is valid grammar
    assert!(parse("mas \"497799835\", id: 497799835").is_ok());
    // the OLD bare form is (correctly) rejected — what we no longer emit
    assert!(parse("mas \"497799835\"").is_err());
}

use temper::manifest::{Ignore, Machine};
use temper::packages::Installed;
use temper::reconcile_plan::{
    brewfile_drops, machine_package_drops, machine_remote_drops, package_adds, plan, trust_candidates, DesktopCandidates,
    PackageReport,
};

fn strings(items: &[&str]) -> Vec<String> {
    items.iter().map(|s| s.to_string()).collect()
}

fn machine(brewfile: Option<&str>) -> Machine {
    Machine {
        name: "kira".into(),
        os: "mac".into(),
        role: None,
        apps: vec![],
        packages: vec![],
        gnome_extensions: Vec::new(),
        brewfile: brewfile.map(|b| b.to_string()),
        vars: Default::default(),
        brew_trust: strings(&["mine/tap", "gone/tap"]),
        rpm_ostree: Vec::new(),
        flatpak_remotes: Vec::new(),
        ignore: Default::default(),
        dconf: vec![],
        git: None,
    }
}

fn desktop() -> DesktopCandidates {
    DesktopCandidates {
        gext_adds: strings(&["a@x"]),
        gext_drops: vec![],
        package_drops: vec![],
        remote_adds: vec![],
        remote_drops: vec![],
        rpm_adds: vec![],
        rpm_drops: vec![],
        dconf: vec![],
    }
}

#[test]
fn adds_are_named_tokens_sorted() {
    let mut inst = Installed::default();
    inst.set(Manager::Cask, strings(&["zoom"]));
    let naive = vec![(Manager::Flatpak, "org.b".to_string()), (Manager::Mas, "497799835".to_string()), (Manager::Brew, "skipped".to_string())];
    let mas_list = strings(&["497799835  Xcode (14.0)"]);
    let brew = vec![(Manager::Tap, "u/t".to_string()), (Manager::Brew, "sesh".to_string()), (Manager::Brew, "zoom".to_string()), (Manager::Brew, "jq".to_string())];
    let casks: Vec<(String, String)> = vec![];
    let formulae = vec![("sesh".to_string(), "joshmedeski/sesh/sesh".to_string())];
    let adds = package_adds(&naive, &mas_list, &brew, &casks, &formulae, &inst);
    let tokens: Vec<&str> = adds.iter().map(|a| a.token.as_str()).collect();
    assert_eq!(
        tokens,
        vec![
            "brew \"joshmedeski/sesh/sesh\"",
            "brew \"jq\"",
            "cask \"zoom\"",
            "flatpak \"org.b\"",
            "mas \"Xcode\", id: 497799835",
            "tap \"u/t\"",
        ]
    );
    let mas = adds.iter().find(|a| a.manager == Manager::Mas).unwrap();
    assert_eq!(mas.name, "Xcode");
    assert_eq!(mas.ignore_key, "mas");
    assert_eq!(mas.ignore_value, "497799835", "the id, which is what drift matches");
}

#[test]
fn a_cask_wins_a_name_clash_in_brew_info() {
    let inst = Installed::default();
    let brew = vec![(Manager::Brew, "docker".to_string())];
    let casks = vec![("docker".to_string(), "docker".to_string())];
    let formulae = vec![("docker".to_string(), "docker".to_string())];
    let adds = package_adds(&[], &[], &brew, &casks, &formulae, &inst);
    assert_eq!(adds[0].token, "cask \"docker\"");
}

#[test]
fn drops_are_declared_lines_whose_package_is_absent() {
    let mut inst = Installed::default();
    inst.set(Manager::Brew, strings(&["jq"]));
    let content = "# header\n\nbrew \"jq\"\n  brew \"gone\"  \ncask \"unprobed\"\nnot a token\n";
    assert_eq!(brewfile_drops(content, &inst), strings(&["  brew \"gone\"  "]));
    assert_eq!(machine_package_drops(&strings(&["brew \"jq\"", "brew \"gone\"", "cask \"x\""]), &inst), strings(&["brew \"gone\""]));
}

#[test]
fn trust_candidates_go_both_ways() {
    let trusted = Some(strings(&["z/tap", "mine/tap", "ign/tap", "a/tap"]));
    let (adds, drops) = trust_candidates(&trusted, &strings(&["mine/tap"]), &strings(&["ign/tap"]), &strings(&["mine/tap", "gone/tap"]));
    assert_eq!(adds, strings(&["a/tap", "z/tap"]));
    assert_eq!(drops, strings(&["gone/tap"]));
    let (a, d) = trust_candidates(&None, &[], &[], &strings(&["gone/tap"]));
    assert!(a.is_empty() && d.is_empty());
}

#[test]
fn remote_drops_are_unconfigured_machine_remotes() {
    let live = Some(vec![("flathub".to_string(), "https://dl.flathub.org/repo/".to_string())]);
    let mine = strings(&["flathub https://dl.flathub.org/repo/", "gnome-nightly https://x/"]);
    assert_eq!(machine_remote_drops(&mine, live), strings(&["gnome-nightly https://x/"]));
    assert!(machine_remote_drops(&mine, None).is_empty());
}

#[test]
fn a_plan_without_a_brewfile_keeps_only_the_desktop_half() {
    let report = PackageReport {
        effective: vec![],
        installed: Installed::default(),
        mas_list: vec![],
        brew_extras: vec![(Manager::Brew, "jq".to_string())],
        casks: vec![],
        formulae: vec![],
        brewfile: "brew \"x\"\n".into(),
        trusted: Some(strings(&["a/tap"])),
    };
    let p = plan(&machine(None), &Ignore::default(), &[], report, desktop());
    assert!(p.brewfile_rel.is_none());
    assert!(p.adds.is_empty() && p.drops.is_empty() && p.trust_adds.is_empty());
    assert_eq!(p.gext_adds, strings(&["a@x"]));
    assert!(!p.is_empty());
}

#[test]
fn a_plan_with_a_brewfile_reads_the_package_report() {
    let mut inst = Installed::default();
    inst.set(Manager::Brew, strings(&["jq"]));
    let report = PackageReport {
        effective: vec![parse("brew \"jq\"").unwrap()],
        installed: inst,
        mas_list: vec![],
        brew_extras: vec![(Manager::Brew, "wget".to_string())],
        casks: vec![],
        formulae: vec![],
        brewfile: "brew \"jq\"\nbrew \"gone\"\n".into(),
        trusted: Some(strings(&["a/tap", "mine/tap"])),
    };
    let p = plan(&machine(Some("Brewfile")), &Ignore::default(), &strings(&["mine/tap"]), report, desktop());
    assert_eq!(p.brewfile_rel.as_deref(), Some("Brewfile"));
    assert_eq!(p.adds.len(), 1);
    assert_eq!(p.adds[0].token, "brew \"wget\"");
    assert_eq!(p.drops, strings(&["brew \"gone\""]));
    assert_eq!(p.trust_adds, strings(&["a/tap"]));
    assert_eq!(p.trust_drops, strings(&["gone/tap"]));
    assert_eq!(p.items().len(), 5);
}

#[test]
fn every_emitted_list_is_a_declared_list() {
    let plan = ReconcilePlan {
        brewfile_rel: Some("brewfiles/t".into()),
        adds: vec![AddItem {
            manager: Manager::Brew,
            name: "jq".into(),
            token: "brew \"jq\"".into(),
            ignore_key: "brew",
            ignore_value: "jq".into(),
        }],
        drops: vec!["brew \"gone\"".into()],
        trust_adds: vec!["a/b".into()],
        trust_drops: vec!["c/d".into()],
        gext_adds: vec!["e@x".into()],
        gext_drops: vec!["f@x".into()],
        package_drops: vec!["brew \"loose\"".into()],
        remote_adds: vec!["r".into()],
        remote_drops: vec!["s https://x".into()],
        rpm_adds: vec!["vpn".into()],
        rpm_drops: vec!["old".into()],
        dconf: Vec::new(),
    };
    let lists = ReconcilePlan::lists();
    let items = plan.items();
    for i in &items {
        assert!(
            lists.contains(&i.list),
            "items() emits `{}`, which the declared lists do not hold — it would be counted but never shown",
            i.list
        );
    }
    // The plan document is built from `items()`, one key per declared list:
    // each list carries exactly its one candidate.
    for name in &lists {
        assert_eq!(items.iter().filter(|i| i.list == *name).count(), 1, "`{name}` did not reach the document");
    }
    assert_eq!(items.len(), 11);
    assert!(!plan.is_empty());
    assert!(ReconcilePlan {
        brewfile_rel: None,
        adds: vec![],
        drops: vec![],
        trust_adds: vec![],
        trust_drops: vec![],
        gext_adds: vec![],
        gext_drops: vec![],
        package_drops: vec![],
        remote_adds: vec![],
        remote_drops: vec![],
        rpm_adds: vec![],
        rpm_drops: vec![],
        dconf: vec![],
    }
    .is_empty());
}

#[test]
fn a_token_reads_back_as_its_package() {
    for (m, name) in [(Manager::Brew, "jq"), (Manager::Cask, "visual studio"), (Manager::Flatpak, "org.x.App"), (Manager::Tap, "a/b")] {
        let t = token_for(m, name);
        let p = parse(&t).unwrap();
        assert_eq!(p.manager, m);
        assert_eq!(p.name, name);
        assert_eq!(p.id, None);
        assert_eq!(p.raw, t);
    }
}

#[test]
fn sorting_keeps_every_line_that_says_something() {
    let src = "# header\n\ncask \"zoom\"\nbrew \"jq\"\n\n# c\ntap \"a/b\"\nbrew \"bat\"\nbrew \"bat\"\n# trailing\n";
    let out = sort_brewfile(src);
    let mut a: Vec<&str> = src.lines().filter(|l| !l.trim().is_empty()).collect();
    let mut b: Vec<&str> = out.lines().filter(|l| !l.trim().is_empty()).collect();
    a.sort();
    b.sort();
    assert_eq!(a, b, "{out}");
}

#[test]
fn sort_keeps_each_comment_above_its_entry_across_groups() {
    let input = "cask \"zed\"\n# the best\nbrew \"ripgrep\"\n# tap note\ntap \"a/b\"\n";
    let out = sort_brewfile(input);
    let lines: Vec<&str> = out.lines().collect();
    for (c, e) in [("# the best", "brew \"ripgrep\""), ("# tap note", "tap \"a/b\"")] {
        let i = lines.iter().position(|l| *l == c).unwrap();
        assert_eq!(lines[i + 1], e, "comment not above its entry:\n{out}");
    }
}
