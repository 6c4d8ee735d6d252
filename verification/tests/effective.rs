use temper::effective::{effective_set, PackageBundle};
use temper::manifest::Machine;
use temper::packages::{Manager, PkgError};

fn strings(items: &[&str]) -> Vec<String> {
    items.iter().map(|s| s.to_string()).collect()
}

fn machine(os: &str, role: Option<&str>, packages: &[&str]) -> Machine {
    Machine {
        name: "m".into(),
        os: os.into(),
        role: role.map(|r| r.to_string()),
        apps: vec![],
        packages: strings(packages),
        gnome_extensions: Vec::new(),
        brewfile: None,
        vars: Default::default(),
        brew_trust: Vec::new(),
        rpm_ostree: Vec::new(),
        flatpak_remotes: Vec::new(),
        ignore: Default::default(),
        dconf: vec![],
        git: None,
    }
}

fn bundle(os: Option<&str>, packages: &[&str], mac: &[&str], linux: &[&str]) -> PackageBundle {
    PackageBundle { os: os.map(|o| o.to_string()), role: None, packages: strings(packages), packages_mac: strings(mac), packages_linux: strings(linux) }
}

#[test]
fn the_effective_set_composes_bundles_loose_list_and_brewfile() {
    let bundles = vec![
        bundle(None, &["brew \"jq\""], &["cask \"zoom\""], &["flatpak \"org.a\""]),
        bundle(Some("linux"), &["flatpak \"org.linux-only\""], &[], &[]),
    ];
    let m = machine("mac", None, &["brew \"user/tap/jq\"", "brew \"wget\""]);
    let set = effective_set(&bundles, &m, Some("# header\n\n  tap \"u/t\"  \nbrew \"wget\"\n")).unwrap();
    let raws: Vec<&str> = set.iter().map(|p| p.raw.as_str()).collect();
    // the tap-qualified jq is the same package as jq; the repeated wget is dropped
    assert_eq!(raws, vec!["brew \"jq\"", "cask \"zoom\"", "brew \"wget\"", "tap \"u/t\""]);
    assert_eq!(set[3].manager, Manager::Tap);
}

#[test]
fn the_first_bad_token_is_named() {
    let m = machine("linux", None, &["brew \"ok\"", "mas \"App\"", "bogus"]);
    let err = effective_set(&[], &m, None).unwrap_err();
    assert_eq!(err, ("mas \"App\"".to_string(), PkgError::MasNeedsId));
}
