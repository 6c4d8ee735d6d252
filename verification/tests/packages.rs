use temper::manifest::Ignore;
use temper::packages::{extras, ignore_list, missing, parse, Installed, Manager};

#[test]
fn manager_all_lists_every_variant() {
    fn seen(m: Manager) -> u8 {
        match m {
            Manager::Brew => 0,
            Manager::Cask => 1,
            Manager::Tap => 2,
            Manager::Flatpak => 3,
            Manager::Mas => 4,
            Manager::Vscode => 5,
        }
    }
    let mut marks: Vec<u8> = Manager::ALL.iter().map(|m| seen(*m)).collect();
    marks.sort_unstable();
    assert_eq!(
        marks,
        (0..=5).collect::<Vec<u8>>(),
        "Manager::ALL is missing a variant or repeats one"
    );
}

#[test]
fn every_manager_has_a_reachable_ignore_list() {
    let ignore = Ignore {
        brew: vec!["b".into()],
        cask: vec!["c".into()],
        tap: vec!["t".into()],
        flatpak: vec!["f".into()],
        mas: vec!["m".into()],
        vscode: vec!["v".into()],
        ..Default::default()
    };
    for &m in Manager::ALL.iter() {
        assert_eq!(
            ignore_list(&ignore, m).len(),
            1,
            "`{}` has no reachable ignore list",
            m.as_str()
        );
    }
}

#[test]
fn parse_tokens() {
    assert_eq!(parse("brew \"wget\"").unwrap().manager, Manager::Brew);
    let cask = parse("cask \"ublue-os/tap/1password-gui-linux\"").unwrap();
    assert_eq!(cask.manager, Manager::Cask);
    assert_eq!(cask.match_name(), "1password-gui-linux"); // tap prefix stripped
    let mas = parse("mas \"Xcode\", id: 497799835").unwrap();
    assert_eq!(mas.manager, Manager::Mas);
    assert_eq!(mas.match_name(), "497799835");
    assert_eq!(
        parse("vscode \"Rust-Lang.Rust\"").unwrap().match_name(),
        "rust-lang.rust"
    );
    assert!(parse("bogus \"x\"").is_err());
    // `id:` inside the quoted name must not be mistaken for the id.
    assert_eq!(
        parse("mas \"Bid: 5 stars\", id: 999").unwrap().match_name(),
        "999"
    );
}

#[test]
fn missing_and_extras() {
    let declared = vec![
        parse("brew \"wget\"").unwrap(),
        parse("brew \"jq\"").unwrap(),
        parse("flatpak \"org.x.App\"").unwrap(),
    ];
    let mut installed = Installed::default();
    installed.set(
        Manager::Brew,
        vec![String::from("wget"), String::from("extra-tool")],
    );
    installed.set(Manager::Flatpak, vec![String::from("org.x.App")]);
    // flatpak not… actually declared+installed match → not missing

    let miss: Vec<_> = missing(&declared, &installed)
        .iter()
        .map(|p| p.name.clone())
        .collect();
    assert_eq!(miss, vec!["jq"]); // declared brew jq not installed

    let ignore = Ignore::default();
    let ex = extras(&declared, &installed, &ignore);
    assert_eq!(ex, vec![(Manager::Brew, "extra-tool".to_string())]);

    // ignoring it removes it from extras
    let ignore = Ignore {
        brew: vec!["extra-tool".into()],
        ..Default::default()
    };
    assert!(extras(&declared, &installed, &ignore).is_empty());
}

#[test]
fn unprobed_manager_yields_no_missing() {
    let declared = vec![parse("mas \"Xcode\", id: 497799835").unwrap()];
    let installed = Installed::default(); // mas never probed
    assert!(missing(&declared, &installed).is_empty());
}
