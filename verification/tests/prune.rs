use temper::manifest::Ignore;
use temper::packages::{parse, Installed, Manager, Pkg};
use temper::prune::{package_extras, prune_steps, run_adopt, run_prune, PruneReport};

fn pkgs(lines: &[&str]) -> Vec<Pkg> {
    lines.iter().map(|l| parse(l).unwrap()).collect()
}

fn strings(items: &[&str]) -> Vec<String> {
    items.iter().map(|s| s.to_string()).collect()
}

#[test]
fn extras_come_naive_for_the_rest_and_dependency_aware_for_brew() {
    let eff = pkgs(&["brew \"jq\"", "flatpak \"org.a\""]);
    let mut inst = Installed::default();
    inst.set(Manager::Brew, strings(&["jq", "oniguruma", "wget"]));
    inst.set(Manager::Flatpak, strings(&["org.a", "org.b"]));
    let brew = vec![(Manager::Brew, "wget".to_string())];
    let out = package_extras(&eff, &inst, &Ignore::default(), brew.clone());
    assert_eq!(out, vec![(Manager::Flatpak, "org.b".to_string()), (Manager::Brew, "wget".to_string())]);
    assert_eq!(run_adopt(&eff, &inst, &Ignore::default(), brew), out);
    // an unconfigured machine never proposes removing everything
    assert!(package_extras(&[], &inst, &Ignore::default(), Vec::new()).is_empty());
}

#[test]
fn each_prune_list_is_gated_on_its_own() {
    let mut ig = Ignore::default();
    ig.tap = strings(&["ignored/tap"]);
    let report = PruneReport {
        brew_extras: Vec::new(),
        trusted: Some(strings(&["z/tap", "declared/tap", "ignored/tap", "a/tap"])),
        user_extensions: Some(strings(&["mine@x", "declared@x"])),
        layered: None,
    };
    let plan = run_prune(&[], &Installed::default(), &ig, &strings(&["declared/tap"]), &strings(&["declared@x"]), &strings(&["vpn"]), report);
    assert!(plan.packages.is_empty());
    assert_eq!(plan.untrust, strings(&["a/tap", "z/tap"]));
    assert_eq!(plan.extensions, strings(&["mine@x"]));
    assert!(plan.rpm_ostree.is_empty(), "an unreadable layered set removes nothing");
    assert_eq!(prune_steps(&plan), (false, true, true));
}
