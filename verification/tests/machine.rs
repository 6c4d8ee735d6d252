use temper::manifest::{BrewConfig, Machine, TemperToml, UiConfig, UpdateConfig, UpdateMode};
use temper::machine::{checked, hostname_from, resolve, MachineError};

fn m(os: &str, role: Option<&str>) -> Machine {
    named("x", os, role)
}

fn named(name: &str, os: &str, role: Option<&str>) -> Machine {
    Machine {
        name: name.into(),
        os: os.into(),
        role: role.map(String::from),
        apps: vec![],
        packages: vec![],
        gnome_extensions: Vec::new(),
        brewfile: None,
        vars: Default::default(),
        brew_trust: Vec::new(),
        ignore: Default::default(),
        dconf: vec![],
        git: None,
        flatpak_remotes: Vec::new(),
        rpm_ostree: Vec::new(),
    }
}

fn fleet(ms: Vec<Machine>) -> TemperToml {
    TemperToml {
        machine: ms,
        vars: Default::default(),
        ignore: Default::default(),
        brew: BrewConfig { trust: vec![] },
        ui: UiConfig { icons: None },
        eq_import: None,
        git: None,
        update: UpdateConfig { mode: UpdateMode::default() },
        temper_version: None,
    }
}

#[test]
fn checked_rejects_unknown_os_and_role() {
    assert!(checked(m("mac", Some("desktop"))).is_ok());
    assert!(checked(m("linux", Some("server"))).is_ok());
    assert!(checked(m("linux", None)).is_ok());
    assert!(checked(m("Linux", None)).is_err());
    assert!(checked(m("windows", None)).is_err());
    assert!(checked(m("linux", Some("laptop"))).is_err());
}

#[test]
fn unknown_os_names_the_machine_in_its_message() {
    let e = checked(m("Linux", None)).unwrap_err();
    assert_eq!(e.message(), "machine 'x' has unknown os 'Linux' (expected \"mac\" or \"linux\")");
}

#[test]
fn resolution_prefers_the_explicit_name_then_the_host() {
    let two = || fleet(vec![named("kira", "linux", None), named("mbp", "mac", None)]);
    assert_eq!(resolve(two(), Some("mbp"), Some("kira".into())).unwrap().name, "mbp");
    assert_eq!(resolve(two(), None, Some("kira".into())).unwrap().name, "kira");
    assert_eq!(
        resolve(two(), Some("nope"), None).unwrap_err(),
        MachineError::NoSuchMachine("nope".into())
    );
    let e = resolve(two(), None, Some("other".into())).unwrap_err();
    assert_eq!(
        e.message(),
        "could not resolve this machine by hostname; pass a name (known: kira, mbp)"
    );
    let one = fleet(vec![named("solo", "linux", None)]);
    assert_eq!(resolve(one, None, None).unwrap().name, "solo");
    assert_eq!(resolve(fleet(vec![]), None, None).unwrap_err(), MachineError::NoMachines);
}

#[test]
fn hostnames_are_short_and_lowercase() {
    assert_eq!(hostname_from("Kira.local\n"), Some("kira".to_string()));
    assert_eq!(hostname_from("  \n"), None);
}
