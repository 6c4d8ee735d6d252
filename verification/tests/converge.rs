use temper::converge::{
    bundle_args, bundle_brewfile, cask_candidates, casks_needing_root, flatpak_install_argv, flatpak_prune,
    ignored_brewfile_lines, mas_todo, prune_cleanup,
};
use temper::manifest::Ignore;
use temper::packages::{parse, Manager, Pkg};

fn pkgs(lines: &[&str]) -> Vec<Pkg> {
    lines.iter().map(|l| parse(l).unwrap()).collect()
}

fn strings(items: &[&str]) -> Vec<String> {
    items.iter().map(|s| s.to_string()).collect()
}

#[test]
fn the_converge_brewfile_leaves_mas_and_flatpak_out() {
    let eff = pkgs(&["brew \"jq\"", "mas \"Xcode\", id: 497799835", "flatpak \"org.a\"", "cask \"zoom\""]);
    assert_eq!(bundle_brewfile(&eff), Some("brew \"jq\"\ncask \"zoom\"\n".to_string()));
    assert_eq!(bundle_brewfile(&pkgs(&["flatpak \"org.a\""])), None);
    assert_eq!(bundle_args(false), strings(&["bundle", "--quiet", "--file"]));
    assert_eq!(bundle_args(true), strings(&["bundle", "--file"]));
    assert_eq!(
        flatpak_install_argv(&eff),
        Some(strings(&["install", "-y", "--noninteractive", "org.a"]))
    );
    assert_eq!(flatpak_install_argv(&pkgs(&["brew \"jq\""])), None);
}

#[test]
fn only_missing_app_store_apps_are_installed() {
    let eff = pkgs(&["mas \"Xcode\", id: 497799835", "mas \"Keynote\", id: 409183694", "brew \"jq\""]);
    let present = vec![("497799835".to_string(), "Xcode".to_string())];
    assert_eq!(mas_todo(&eff, &present), strings(&["409183694"]));
    assert_eq!(mas_todo(&eff, &[]), strings(&["497799835", "409183694"]));
}

#[test]
fn the_prune_file_keeps_everything_ignored() {
    let mut ig = Ignore::default();
    ig.brew = strings(&["wget"]);
    ig.mas = strings(&["123"]);
    ig.vscode = strings(&["a.b"]);
    assert_eq!(
        ignored_brewfile_lines(&ig),
        strings(&["brew \"wget\"", "mas \"123\", id: 123", "vscode \"a.b\""])
    );
    let eff = pkgs(&["brew \"jq\"", "flatpak \"org.a\"", "tap \"u/t\""]);
    let (body, flags) = prune_cleanup(&eff, &ig).unwrap();
    assert_eq!(body, "brew \"jq\"\ntap \"u/t\"\nbrew \"wget\"\nmas \"123\", id: 123\nvscode \"a.b\"\n");
    assert_eq!(flags, strings(&["--formula", "--tap"]));
    assert_eq!(prune_cleanup(&pkgs(&["flatpak \"org.a\""]), &ig), None);
}

#[test]
fn system_flatpaks_are_reported_not_removed() {
    let extras = vec![(Manager::Flatpak, "org.mine".to_string()), (Manager::Brew, "jq".to_string()), (Manager::Flatpak, "org.sys".to_string())];
    let p = flatpak_prune(&extras, Some(strings(&["org.mine"])));
    assert_eq!(p.remove, strings(&["org.mine"]));
    assert_eq!(p.system, strings(&["org.sys"]));
    assert!(!p.undetermined);
    let q = flatpak_prune(&extras, None);
    assert!(q.undetermined && q.remove.is_empty());
    let r = flatpak_prune(&[(Manager::Brew, "jq".to_string())], None);
    assert!(!r.undetermined && r.remove.is_empty());
}

#[test]
fn casks_that_need_root_are_the_ones_a_run_touches() {
    let eff = pkgs(&["cask \"zoom\"", "cask \"u/t/mactex\"", "cask \"firefox\"", "brew \"jq\""]);
    let installed = strings(&["zoom", "firefox"]);
    let outdated = strings(&["firefox"]);
    assert_eq!(cask_candidates(&eff, &installed, &outdated), strings(&["u/t/mactex", "firefox"]));
    let rows = vec![("zoom".to_string(), true), ("firefox".to_string(), false), ("mactex".to_string(), true)];
    assert_eq!(casks_needing_root(&rows), strings(&["mactex", "zoom"]));
}
