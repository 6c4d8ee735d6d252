use temper::manifest::{effective_vars, gated, version_is_newer, Machine, Vars};

fn machine_with_vars(vars: &[(&str, &str)]) -> Machine {
    let mut vs = Vars::new();
    for (k, v) in vars {
        vs.insert(k.to_string(), v.to_string());
    }
    Machine {
        name: "kira".into(),
        os: "linux".into(),
        role: None,
        apps: vec![],
        packages: vec![],
        gnome_extensions: Vec::new(),
        brewfile: None,
        vars: vs,
        brew_trust: Vec::new(),
        ignore: Default::default(),
        dconf: vec![],
        git: None,
        flatpak_remotes: Vec::new(),
        rpm_ostree: Vec::new(),
    }
}

fn machine(os: &str, role: Option<&str>) -> Machine {
    Machine {
        name: "m".into(),
        os: os.into(),
        role: role.map(String::from),
        apps: vec![],
        packages: vec![],
        gnome_extensions: Vec::new(),
        brewfile: None,
        vars: Default::default(),
        brew_trust: Vec::new(),
        ignore: Default::default(),
        dconf: vec![],
        git: None,
        flatpak_remotes: Vec::new(),
        rpm_ostree: Vec::new(),
    }
}

#[test]
fn version_ordering_is_numeric_and_lenient() {
    assert!(version_is_newer("1.41.0", "1.40.0"));
    assert!(version_is_newer("2.0.0", "1.99.99"));
    assert!(version_is_newer("1.40.10", "1.40.9")); // numeric, not lexical
    assert!(!version_is_newer("1.40.0", "1.40.0")); // equal is not newer
    assert!(!version_is_newer("1.39.0", "1.40.0"));
    // pre-release / build suffixes are ignored (core parts compared)
    assert!(!version_is_newer("1.40.0-rc1", "1.40.0"));
    // garbage parses to 0.0.0 → never spuriously newer
    assert!(!version_is_newer("not-a-version", "1.0.0"));
}

#[test]
fn gate_semantics() {
    let server = machine("linux", Some("server"));
    let desktop = machine("linux", Some("desktop"));
    let mac = machine("mac", Some("desktop"));
    let os_l = Some("linux".to_string());
    let role_d = Some("desktop".to_string());

    // A desktop-Linux bundle is skipped on a server and on a Mac...
    assert!(gated(&os_l, &role_d, &server)); // role mismatch
    assert!(gated(&os_l, &role_d, &mac)); // os mismatch
                                          // ...and applies on a Linux desktop.
    assert!(!gated(&os_l, &role_d, &desktop));
    // A bundle that gates on nothing applies everywhere.
    assert!(!gated(&None, &None, &server));
    assert!(!gated(&None, &None, &machine("linux", None)));

    // A role gate FAILS CLOSED against a machine that declares no role.
    // A bundle naming a role is describing a group; a machine naming none is
    // not in it.
    assert!(gated(&None, &role_d, &machine("linux", None)));
    // The os half is unaffected — it never had a "machine declares no os"
    // case to be lenient about, because os is required.
    assert!(!gated(&os_l, &None, &machine("linux", None)));
}

#[test]
fn per_machine_vars_override_global() {
    let mut global = Vars::new();
    global.insert("BREW_PREFIX".to_string(), "/opt/homebrew".to_string());
    global.insert("SHARED".to_string(), "keep".to_string());
    let m = machine_with_vars(&[("BREW_PREFIX", "/home/linuxbrew/.linuxbrew")]);
    let eff = effective_vars(&global, &m);
    assert_eq!(eff.get("BREW_PREFIX").unwrap(), "/home/linuxbrew/.linuxbrew"); // machine wins
    assert_eq!(eff.get("SHARED").unwrap(), "keep"); // global survives
}

#[test]
fn no_machine_vars_leaves_global_untouched() {
    let mut global = Vars::new();
    global.insert("A".to_string(), "1".to_string());
    let m = machine_with_vars(&[]);
    assert_eq!(effective_vars(&global, &m), global);
}
