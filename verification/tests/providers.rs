use temper::manifest::{GnomeExtension, GnomeExtensionSpec, Ignore, Machine};
use temper::packages::{extras, parse, Manager};
use temper::providers::{
    brew_extras, brew_progress_label, cleanup_brewfile, declaring_bundle, effective_extension_specs,
    effective_extensions, effective_remotes, effective_rpm, gext_absent_from, gext_caps, gext_enable_drift,
    gext_extras, gext_extras_from, gext_machine_absent, gext_missing, installed_versions, is_noteworthy, mas_names,
    normalize, noteworthy_lines, parse_cleanup_extras, parse_mas_line, parse_remote, probe, probe_seeding,
    remotes_extras, remotes_missing, rpm_ostree_caps, rpm_ostree_extras, rpm_ostree_machine_absent, upgraded_between,
    BundleDecl, DeclKind,
};

fn strings(items: &[&str]) -> Vec<String> {
    items.iter().map(|s| s.to_string()).collect()
}

fn machine(name: &str, os: &str, role: &str, apps: &[&str]) -> Machine {
    Machine {
        name: name.into(),
        os: os.into(),
        role: Some(role.into()),
        apps: strings(apps),
        packages: vec![],
        gnome_extensions: Vec::new(),
        brewfile: None,
        vars: Default::default(),
        brew_trust: Vec::new(),
        rpm_ostree: Vec::new(),
        flatpak_remotes: Vec::new(),
        ignore: Default::default(),
        dconf: vec![],
        git: None,
    }
}

fn gnome_bundle() -> BundleDecl {
    BundleDecl {
        app: "gnome".into(),
        os: Some("linux".into()),
        role: Some("desktop".into()),
        gnome_extensions: vec![GnomeExtension::Uuid("a@x".into()), GnomeExtension::Uuid("b@y".into())],
        rpm_ostree: strings(&["proton-vpn"]),
        flatpak_remotes: strings(&["flathub https://dl.flathub.org/repo/"]),
    }
}

#[test]
fn the_machines_declaration_wins_over_a_bundles() {
    let bundle = GnomeExtension::Uuid("x@y".into());
    let machine = GnomeExtension::Spec(GnomeExtensionSpec {
        uuid: "x@y".into(),
        enabled: false,
        settings: None,
    });
    let mut out = [bundle];
    if let Some(slot) = out.iter_mut().find(|e| e.uuid() == machine.uuid()) {
        *slot = machine.clone();
    }
    assert_eq!(out.len(), 1, "still one declaration, not two");
    assert!(!out[0].enabled(), "the machine asked for it switched off and must be heard");
}

#[test]
fn composition_lets_the_machine_override_a_bundle() {
    let m = machine("d", "linux", "desktop", &["gnome"]);
    let own = vec![GnomeExtension::Spec(GnomeExtensionSpec {
        uuid: "a@x".into(),
        enabled: false,
        settings: None,
    })];
    let specs = effective_extension_specs(vec![gnome_bundle()], &m, own);
    assert_eq!(specs.len(), 2);
    assert_eq!(specs[0].uuid(), "a@x");
    assert!(!specs[0].enabled());
    assert_eq!(specs[1].uuid(), "b@y");
    assert!(specs[1].enabled());
}

#[test]
fn desktop_bundle_gated_off_for_server() {
    let desktop = machine("d", "linux", "desktop", &["gnome"]);
    assert_eq!(effective_extensions(vec![gnome_bundle()], &desktop, vec![]), vec!["a@x", "b@y"]);
    assert_eq!(effective_rpm(&[gnome_bundle()], &desktop), vec!["proton-vpn"]);
    let server = machine("s", "linux", "server", &["gnome"]);
    assert!(effective_extensions(vec![gnome_bundle()], &server, vec![]).is_empty());
    assert!(effective_rpm(&[gnome_bundle()], &server).is_empty());
}

#[test]
fn declaring_bundle_names_the_file_or_nothing() {
    let desktop = machine("d", "linux", "desktop", &["gnome"]);
    let b = [gnome_bundle()];
    assert_eq!(
        declaring_bundle(&b, &desktop, DeclKind::GnomeExtension, "b@y"),
        Some("apps/gnome.toml".to_string())
    );
    assert_eq!(
        declaring_bundle(&b, &desktop, DeclKind::FlatpakRemote, "flathub"),
        Some("apps/gnome.toml".to_string())
    );
    assert_eq!(declaring_bundle(&b, &desktop, DeclKind::RpmOstree, "other"), None);
    let server = machine("s", "linux", "server", &["gnome"]);
    assert_eq!(declaring_bundle(&b, &server, DeclKind::RpmOstree, "proton-vpn"), None);
}

#[test]
fn remotes_first_declaration_wins() {
    let mut m = machine("d", "linux", "desktop", &["gnome"]);
    m.flatpak_remotes = strings(&["flathub https://elsewhere/", "kde https://kde.example/repo"]);
    assert_eq!(
        effective_remotes(&[gnome_bundle()], &m),
        vec![
            ("flathub".to_string(), "https://dl.flathub.org/repo/".to_string()),
            ("kde".to_string(), "https://kde.example/repo".to_string()),
        ]
    );
    assert_eq!(parse_remote("name   url  "), Some(("name".to_string(), "url".to_string())));
    // The name is what precedes the first whitespace, so leading blanks leave none.
    assert_eq!(parse_remote("  name url"), None);
    assert_eq!(parse_remote("lonely"), None);
}

#[test]
fn declared_minus_installed_is_sorted_and_deduped() {
    let installed = vec!["here@x".to_string()];
    let declared = strings(&["gone@x", "here@x", "also@x", "gone@x"]);
    assert_eq!(
        gext_absent_from(&installed, &declared),
        vec!["also@x".to_string(), "gone@x".to_string()]
    );
    assert!(gext_absent_from(&installed, &[]).is_empty());
    assert!(gext_machine_absent(&[], Some(installed.clone())).is_empty());
}

#[test]
fn gext_extras_are_user_scope_minus_declared_minus_ignored() {
    let installed_user = strings(&["declared@x", "ignored@x", "stray@x"]);
    let declared = vec!["declared@x".to_string()];
    let ignored = vec!["ignored@x".to_string()];
    assert_eq!(
        gext_extras_from(&installed_user, &declared, &ignored),
        vec!["stray@x".to_string()]
    );
    assert!(gext_extras_from(&[], &declared, &[]).is_empty());
    assert!(gext_extras(&[], &Ignore::default(), Some(installed_user.clone())).is_empty());
}

#[test]
fn an_unlistable_host_reports_nothing_missing() {
    let declared = strings(&["a@x"]);
    assert!(gext_missing(&declared, None).is_empty());
    assert_eq!(gext_missing(&declared, Some(vec![])), vec!["a@x".to_string()]);
    assert!(gext_extras(&declared, &Ignore::default(), None).is_empty());
    let caps = gext_caps(true, false);
    assert!(caps.observe && !caps.converge);
    let r = rpm_ostree_caps(false);
    assert!(!r.observe && !r.converge);
}

#[test]
fn an_undeclared_manager_is_never_probed() {
    let declared = vec![parse("brew \"jq\"").unwrap()];
    // Every tool is present and answers.
    let answers: Vec<(Manager, Option<Vec<String>>)> = Manager::ALL
        .iter()
        .map(|m| (*m, Some(vec!["something".to_string()])))
        .collect();
    let inst = probe(&declared, &answers);
    for m in [Manager::Vscode, Manager::Flatpak, Manager::Mas] {
        assert!(
            !inst.probed(m),
            "{} was probed despite nothing being declared for it",
            m.as_str()
        );
    }
    assert!(inst.probed(Manager::Brew));
    let extras = extras(&declared, &inst, &Ignore::default());
    assert!(
        !extras.iter().any(|(m, _)| *m == Manager::Vscode),
        "vscode extra reported without a declaration: {extras:?}"
    );
}

#[test]
fn a_tool_that_fails_is_unavailable_not_empty() {
    let declared = vec![parse("brew \"jq\"").unwrap()];
    let inst = probe(&declared, &[(Manager::Brew, None)]);
    assert!(!inst.probed(Manager::Brew));
    assert_eq!(inst.unavailable_managers(), vec![Manager::Brew]);
    let seeded = probe_seeding(&[(Manager::Vscode, Some(vec!["x".into()])), (Manager::Tap, Some(vec![]))]);
    assert!(!seeded.probed(Manager::Vscode));
    assert!(seeded.probed(Manager::Tap));
}

#[test]
fn listings_are_normalized_to_declared_names() {
    assert_eq!(
        normalize(Manager::Mas, strings(&["497799835  Xcode (14.0)", "   ", "55 Bear"])),
        vec!["497799835", "55"]
    );
    assert_eq!(
        normalize(Manager::Vscode, strings(&["MS-Python.Python"])),
        vec!["ms-python.python"]
    );
    assert_eq!(normalize(Manager::Brew, strings(&["jq"])), vec!["jq"]);
}

#[test]
fn labels_the_package_being_installed() {
    assert_eq!(brew_progress_label("==> Fetching llvm").as_deref(), Some("llvm"));
    assert_eq!(brew_progress_label("==> Installing Cask zoom").as_deref(), Some("zoom"));
    assert_eq!(
        brew_progress_label("==> Pouring llvm--22.1.8.arm64_tahoe.bottle.tar.gz").as_deref(),
        Some("llvm")
    );
    assert_eq!(brew_progress_label("==> Installing llvm dependency: xz").as_deref(), Some("xz"));
    assert_eq!(
        brew_progress_label("==> Running installer for mactex; your password may be necessary.").as_deref(),
        Some("mactex")
    );
}

#[test]
fn list_lines_and_plain_output_label_nothing() {
    assert_eq!(brew_progress_label("==> Installing dependencies for llvm: xz, zstd"), None);
    assert_eq!(brew_progress_label("==> Fetching downloads for: llvm, xz"), None);
    assert_eq!(brew_progress_label("Using wget"), None);
    assert_eq!(brew_progress_label(""), None);
    assert_eq!(brew_progress_label("🍺  /opt/homebrew/Cellar/llvm/22.1.8: 8,000 files"), None);
}

#[test]
fn warnings_survive_a_successful_capture() {
    assert!(is_noteworthy("Warning: wget 1.25.0 is already installed"));
    assert!(is_noteworthy("  Error: cask 'x' is unavailable"));
    assert!(is_noteworthy("error: Failed to install org.x.App"));
    assert!(is_noteworthy("warning: org.gnome.Platform is end-of-life"));
    assert!(!is_noteworthy("==> Fetching llvm"));
    assert!(!is_noteworthy("Using wget"));
    assert!(!is_noteworthy("Nothing to update."));
}

#[test]
fn upgrade_count_is_a_version_diff_not_a_head_count() {
    let snap = |pairs: &[(&str, &str)]| -> Vec<(String, String)> {
        pairs.iter().map(|(k, v)| (k.to_string(), v.to_string())).collect()
    };
    let before = snap(&[("brew:node", "26.6.0"), ("brew:jq", "1.7"), ("flatpak:org.x.A", "1.0")]);
    let after = snap(&[
        ("brew:node", "26.7.0"),
        ("brew:jq", "1.7"),
        ("flatpak:org.x.A", "1.0"),
        ("brew:libnew", "1.0"),
    ]);
    assert_eq!(upgraded_between(&before, &after), 1);
    assert_eq!(upgraded_between(&before, &before), 0);
    assert_eq!(upgraded_between(&after, &after), 0);
}

#[test]
fn installed_versions_reads_both_listings() {
    let v = installed_versions(
        &strings(&["jq 1.7", "node 26.6.0 26.7.0", "lonely"]),
        &strings(&["org.x.A\t1.0", "org.y.B"]),
    );
    assert_eq!(
        v,
        vec![
            ("brew:jq".to_string(), "1.7".to_string()),
            ("brew:node".to_string(), "26.6.0 26.7.0".to_string()),
            ("flatpak:org.x.A".to_string(), "1.0".to_string()),
            ("flatpak:org.y.B".to_string(), "".to_string()),
        ]
    );
}

#[test]
fn a_warning_keeps_its_body() {
    let log = "\
==> Fetching jq
Warning: Formulae dependency graph sorting found a circular dependency:
  libtiff, webp
If it persists, run the following commands and try again:
  brew update

==> Installing Cask zoom
Using wget
";
    assert_eq!(
        noteworthy_lines(log),
        vec![
            "Warning: Formulae dependency graph sorting found a circular dependency:",
            "  libtiff, webp",
            "If it persists, run the following commands and try again:",
            "  brew update",
        ]
    );
}

#[test]
fn a_progress_line_ends_a_warning_block() {
    let log = "Warning: something\n  detail\n==> Installing Cask zoom\n🍺 done\n";
    assert_eq!(noteworthy_lines(log), vec!["Warning: something", "  detail"]);
}

#[test]
fn parse_mas_rows() {
    assert_eq!(
        parse_mas_line("497799835  Xcode (14.0)"),
        Some(("497799835".into(), "Xcode".into()))
    );
    assert_eq!(
        parse_mas_line("1234  The Unarchiver (4.3.9)"),
        Some(("1234".into(), "The Unarchiver".into()))
    );
    assert_eq!(parse_mas_line("55  Bear"), Some(("55".into(), "Bear".into())));
    assert_eq!(parse_mas_line(""), None);
    assert_eq!(parse_mas_line("justoneword"), None);
}

#[test]
fn mas_names_maps_ids_to_names() {
    let names = mas_names(&strings(&["497799835  Xcode (14.0)", "junk", "497799835  Xcode Beta (15.0)"]));
    assert_eq!(names, vec![("497799835".to_string(), "Xcode Beta".to_string())]);
}

#[test]
fn remotes_missing_and_extras() {
    let eff = vec![
        ("flathub".to_string(), "https://dl.flathub.org/repo/".to_string()),
        ("kde".to_string(), "https://kde.example/repo".to_string()),
    ];
    let live = vec![
        ("flathub".to_string(), "https://dl.flathub.org/repo".to_string()),
        ("kde".to_string(), "https://moved.example/repo".to_string()),
        ("stray".to_string(), "https://stray/".to_string()),
        ("ignored".to_string(), "https://ign/".to_string()),
    ];
    assert_eq!(remotes_missing(&eff, Some(live.clone())), vec!["kde https://kde.example/repo"]);
    assert!(remotes_missing(&eff, None).is_empty());
    let mut ign = Ignore::default();
    ign.flatpak_remote = vec!["ignored".to_string()];
    assert_eq!(remotes_extras(&eff, &ign, Some(live)), vec!["stray"]);
    assert!(remotes_extras(&[], &ign, Some(vec![])).is_empty());
}

#[test]
fn rpm_ostree_absent_and_extras() {
    let own = strings(&["vpn", "gone", "gone"]);
    assert_eq!(rpm_ostree_machine_absent(&own, Some(strings(&["vpn"]))), vec!["gone"]);
    assert!(rpm_ostree_machine_absent(&own, None).is_empty());
    let mut ign = Ignore::default();
    ign.rpm_ostree = vec!["ign".to_string()];
    assert_eq!(
        rpm_ostree_extras(&strings(&["vpn"]), &ign, Some(strings(&["zz", "vpn", "ign", "aa"]))),
        vec!["aa", "zz"]
    );
}

#[test]
fn enable_drift_is_only_for_installed_extensions() {
    let specs = vec![
        GnomeExtension::Uuid("on@x".into()),
        GnomeExtension::Spec(GnomeExtensionSpec { uuid: "off@x".into(), enabled: false, settings: None }),
        GnomeExtension::Uuid("absent@x".into()),
    ];
    let installed = strings(&["on@x", "off@x"]);
    let enabled = strings(&["off@x"]);
    assert_eq!(
        gext_enable_drift(&specs, Some(installed), Some(enabled)),
        vec![("on@x".to_string(), true), ("off@x".to_string(), false)]
    );
    assert!(gext_enable_drift(&specs, None, Some(vec![])).is_empty());
}

#[test]
fn cleanup_is_asked_about_the_brew_family_only() {
    let declared = vec![parse("brew \"jq\"").unwrap(), parse("flatpak \"org.x.A\"").unwrap()];
    assert_eq!(cleanup_brewfile(&declared, false), Some("brew \"jq\"\n".to_string()));
    assert_eq!(cleanup_brewfile(&[], false), None);
    assert_eq!(cleanup_brewfile(&[], true), Some(String::new()));
    let mut ign = Ignore::default();
    ign.tap = vec!["user/tap".to_string()];
    assert_eq!(
        brew_extras(&ign, Some("Would untap:\nuser/tap\nother/tap\n".to_string())),
        vec![(Manager::Tap, "other/tap".to_string())]
    );
    assert!(brew_extras(&ign, None).is_empty());
}

#[test]
fn untap_line_kept_whole_not_split_to_a_formula() {
    let text = "Would untap:\njoshmedeski/sesh\n";
    assert_eq!(
        parse_cleanup_extras(text, &[]),
        vec![(Manager::Tap, "joshmedeski/sesh".to_string())]
    );
}

#[test]
fn uninstall_formula_stripped_to_short_name() {
    let text = "Would uninstall these formulae:\nowner/tap/foo\nbar\n";
    assert_eq!(
        parse_cleanup_extras(text, &[]),
        vec![(Manager::Brew, "foo".to_string()), (Manager::Brew, "bar".to_string())]
    );
}

#[test]
fn sections_classified_independently() {
    let text = "Would uninstall these formulae:\nripgrep\nWould untap:\njoshmedeski/sesh\n";
    assert_eq!(
        parse_cleanup_extras(text, &[]),
        vec![(Manager::Brew, "ripgrep".to_string()), (Manager::Tap, "joshmedeski/sesh".to_string())]
    );
}

#[test]
fn ignore_suppresses_tap_by_full_name_and_formula_by_short() {
    let text = "Would untap:\njoshmedeski/sesh\nWould uninstall these formulae:\nbar\n";
    assert!(parse_cleanup_extras(text, &strings(&["joshmedeski/sesh", "bar"])).is_empty());
}

#[test]
fn uppercase_summary_line_ends_a_section() {
    let text = "Would untap:\njoshmedeski/sesh\nUntapped 1 tap\n";
    assert_eq!(
        parse_cleanup_extras(text, &[]),
        vec![(Manager::Tap, "joshmedeski/sesh".to_string())]
    );
}

use temper::providers::{brew_extras_seeding, flatpak_remotes_installed, flatpak_user_remotes, gext_enabled};

#[test]
fn listings_parse_rows_and_skip_noise() {
    let out = "flathub\thttps://dl.flathub.org/repo/ \n  fedora \t oci+https://registry.fedoraproject.org\nno tab here\n";
    assert_eq!(
        flatpak_remotes_installed(Some(out.to_string())),
        Some(vec![
            ("flathub".to_string(), "https://dl.flathub.org/repo/".to_string()),
            ("fedora".to_string(), "oci+https://registry.fedoraproject.org".to_string()),
        ])
    );
    assert_eq!(flatpak_user_remotes(None), None);
    assert_eq!(gext_enabled(Some("  a@x \n\n b@y\n".to_string())), Some(strings(&["a@x", "b@y"])));
    assert_eq!(gext_enabled(None), None);
    assert!(brew_extras_seeding(&Ignore::default(), None).is_empty());
}

use temper::providers::{requested_from_status, Deployment};

fn dep(staged: bool, booted: bool, req: &[&str]) -> Deployment {
    Deployment { staged, booted, requested: strings(req) }
}

#[test]
fn only_the_pending_deployment_decides_what_is_layered() {
    let staged_differs = vec![dep(true, false, &["kept"]), dep(false, true, &["kept", "dropped"]), dep(false, false, &["kept", "dropped", "ancient"])];
    assert_eq!(requested_from_status(Some(staged_differs)).unwrap(), strings(&["kept"]), "a staged deployment is what the machine is becoming");
    let nothing_staged = vec![dep(false, true, &["vpn"]), dep(false, false, &["vpn", "gone"])];
    assert_eq!(requested_from_status(Some(nothing_staged)).unwrap(), strings(&["vpn"]));
    let bare = vec![dep(false, true, &[])];
    assert_eq!(requested_from_status(Some(bare)).unwrap(), Vec::<String>::new());
    assert!(requested_from_status(None).is_none());
    assert!(requested_from_status(Some(Vec::new())).is_none());
    // neither flag: the first deployment; sorted and without repeats
    let plain = vec![dep(false, false, &["b", "a", "b"]), dep(false, false, &["z"])];
    assert_eq!(requested_from_status(Some(plain)).unwrap(), strings(&["a", "b"]));
}
