use temper::manifest::Probe;
use temper::probe::{check_for, describe, mas_listed, PresenceCheck};

fn empty() -> Probe {
    Probe { binary: None, path: None, brew: None, cask: None, flatpak: None, mas: None, gext: None, rpm: None, exec_script: None }
}

#[test]
fn binary_probe() {
    let mut p = empty();
    p.binary = Some("sh".into());
    assert_eq!(check_for(&p, None), PresenceCheck::OnPath("sh".into()));
    assert_eq!(describe(&p), "binary `sh`");
}

#[test]
fn path_probe() {
    let mut p = empty();
    p.path = Some("/".into());
    assert_eq!(check_for(&p, Some("/home/u")), PresenceCheck::Exists("/".into()));
    p.path = Some("~/.config/x".into());
    assert_eq!(check_for(&p, Some("/home/u")), PresenceCheck::Exists("/home/u/.config/x".into()));
    assert_eq!(describe(&p), "path `~/.config/x`");
}

#[test]
fn empty_probe_fails_safe() {
    assert_eq!(check_for(&empty(), None), PresenceCheck::Never);
    assert_eq!(describe(&empty()), "empty probe");
}

#[test]
fn the_first_set_field_decides() {
    let mut p = empty();
    p.cask = Some("zoom".into());
    p.rpm = Some("vpn".into());
    assert_eq!(
        check_for(&p, None),
        PresenceCheck::Succeeds { tool: "brew".into(), argv: vec!["brew".into(), "list".into(), "--cask".into(), "zoom".into()] }
    );
    assert_eq!(describe(&p), "cask `zoom`");
    let mut r = empty();
    r.rpm = Some("vpn".into());
    assert_eq!(
        check_for(&r, None),
        PresenceCheck::Succeeds { tool: "rpm".into(), argv: vec!["rpm".into(), "-q".into(), "vpn".into()] }
    );
    let mut m = empty();
    m.mas = Some("497799835".into());
    assert_eq!(check_for(&m, None), PresenceCheck::MasListed("497799835".into()));
    assert!(mas_listed("497799835  Xcode (14.0)\n1  Other (1)\n", "497799835"));
    assert!(!mas_listed("4977998350  Xcode (14.0)\n", "497799835"));
}
