use temper::spec_edit::{
    append_ignore, append_machine, append_machine_extension, append_machine_ignore, append_machine_remote,
    append_machine_rpm, append_machine_trust, append_trust, has_machine, remove_machine_extension,
    remove_machine_package, remove_machine_remote, remove_machine_rpm, remove_machine_trust, remove_trust, EditError,
};

const DOC: &str = r#"# fleet spec — keep this comment
[ignore]
flatpak = ["org.example.Baseline"]

[[machine]]
name = "atlas"          # the desktop
os   = "linux"
rpm_ostree = ["already-here"]

[[machine]]
name = "helios"
os   = "mac"
"#;

fn parses(doc: &str) -> toml::Value {
    doc.parse::<toml::Table>()
        .map(toml::Value::Table)
        .unwrap_or_else(|e| panic!("writer produced unparseable TOML ({e}):\n{doc}"))
}

fn machine<'a>(v: &'a toml::Value, name: &str) -> &'a toml::Value {
    v["machine"]
        .as_array()
        .unwrap()
        .iter()
        .find(|m| m["name"].as_str() == Some(name))
        .unwrap_or_else(|| panic!("machine `{name}` vanished"))
}

fn list(v: &toml::Value, m: &str, key: &str) -> Vec<String> {
    machine(v, m)
        .get(key)
        .and_then(|x| x.as_array())
        .map(|a| a.iter().filter_map(|x| x.as_str().map(String::from)).collect())
        .unwrap_or_default()
}

type W = fn(&str, &str, &str) -> Result<String, EditError>;

#[test]
fn every_machine_scope_writer_round_trips() {
    let cases: &[(&str, &str, &str, W, W)] = &[
        (
            "flatpak_remotes",
            "flatpak_remotes",
            "vendor https://example.com/v.flatpakrepo",
            append_machine_remote,
            remove_machine_remote,
        ),
        ("rpm_ostree", "rpm_ostree", "proton-vpn", append_machine_rpm, remove_machine_rpm),
        ("brew_trust", "brew_trust", "me/tap", append_machine_trust, remove_machine_trust),
        ("gnome_extensions", "gnome_extensions", "x@y", append_machine_extension, remove_machine_extension),
    ];

    for (label, key, value, add, drop) in cases {
        let added = add(DOC, "atlas", value).unwrap_or_else(|e| panic!("{label}: append failed: {}", e.message()));
        let v = parses(&added);
        assert!(
            list(&v, "atlas", key).iter().any(|x| x == value),
            "{label}: `{value}` is not in atlas's list after append:\n{added}"
        );
        assert!(list(&v, "helios", key).is_empty(), "{label}: the write reached helios:\n{added}");
        assert!(
            added.contains("# fleet spec — keep this comment") && added.contains("# the desktop"),
            "{label}: comments were lost:\n{added}"
        );

        let removed = drop(&added, "atlas", value).unwrap_or_else(|e| panic!("{label}: remove failed: {}", e.message()));
        let v = parses(&removed);
        assert!(
            !list(&v, "atlas", key).iter().any(|x| x == value),
            "{label}: `{value}` survived the remove:\n{removed}"
        );
        assert!(
            removed.contains("# fleet spec — keep this comment"),
            "{label}: comments were lost on remove:\n{removed}"
        );

        let twice =
            drop(&removed, "atlas", value).unwrap_or_else(|e| panic!("{label}: second remove errored: {}", e.message()));
        parses(&twice);
    }
}

#[test]
fn absorbing_an_extension_never_writes_both_spellings() {
    let migrated = "[[machine]]\nname = \"atlas\"\nos = \"linux\"\ngnome_extensions = [\"a@x\"]\n";
    let out = append_machine_extension(migrated, "atlas", "b@y").unwrap();
    assert!(
        !(out.contains("gnome_extensions") && out.contains("\nextensions")),
        "wrote both spellings — this manifest no longer parses:\n{out}"
    );
    let v = parses(&out);
    let m = &v["machine"].as_array().unwrap()[0];
    let list: Vec<&str> = m["gnome_extensions"].as_array().unwrap().iter().map(|x| x.as_str().unwrap()).collect();
    assert_eq!(list, vec!["a@x", "b@y"], "{out}");

    let old = "[[machine]]\nname = \"atlas\"\nos = \"linux\"\nextensions = [\"a@x\"]\n";
    let out = append_machine_extension(old, "atlas", "b@y").unwrap();
    assert!(!out.contains("gnome_extensions"), "an un-migrated folder must not gain the second key either:\n{out}");
    assert!(out.contains("b@y"), "{out}");

    for doc in [migrated, old] {
        let dropped = remove_machine_extension(doc, "atlas", "a@x").unwrap();
        assert!(!dropped.contains("a@x"), "not dropped:\n{dropped}");
    }
}

#[test]
fn appending_keeps_what_is_already_declared() {
    let out = append_machine_rpm(DOC, "atlas", "proton-vpn").unwrap();
    let v = parses(&out);
    let rpms = list(&v, "atlas", "rpm_ostree");
    assert!(
        rpms.contains(&"already-here".to_string()) && rpms.contains(&"proton-vpn".to_string()),
        "both must survive: {rpms:?}"
    );
    assert!(out.contains("org.example.Baseline"), "a machine-scope write must not disturb the fleet [ignore]:\n{out}");
}

#[test]
fn a_machine_extension_can_be_absorbed_and_dropped_again() {
    let before = "# fleet\n[[machine]]\nname = \"atlas\"\nos = \"linux\"\nextensions = [\"keep@x\"]\n";
    let added = append_machine_extension(before, "atlas", "gone@x").unwrap();
    assert!(added.contains("gone@x"));
    let dropped = remove_machine_extension(&added, "atlas", "gone@x").unwrap();
    assert!(!dropped.contains("gone@x"));
    assert!(dropped.contains("keep@x"), "dropped a sibling it was not asked about");
    assert!(dropped.contains("# fleet"), "lost a comment");
}

#[test]
fn absorbing_a_tap_writes_the_machine_not_the_fleet() {
    let src = "[brew]\ntrust = [\"fleet/tap\"]\n\n[[machine]]\nname = \"atlas\"\nos = \"linux\"\n";
    let out = append_machine_trust(src, "atlas", "mine/tap").unwrap();
    let doc: toml_edit::DocumentMut = out.parse().unwrap();
    assert_eq!(doc["brew"]["trust"].as_array().unwrap().len(), 1);
    assert_eq!(doc["machine"][0]["brew_trust"][0].as_str(), Some("mine/tap"));
    assert_eq!(append_machine_trust(&out, "atlas", "mine/tap").unwrap(), out);
}

#[test]
fn dropping_a_tap_cannot_reach_the_fleet_list() {
    let src = "[brew]\ntrust = [\"fleet/tap\"]\n\n[[machine]]\nname = \"atlas\"\nbrew_trust = [\"fleet/tap\", \"mine/tap\"]\n";
    let out = remove_machine_trust(src, "atlas", "fleet/tap").unwrap();
    let doc: toml_edit::DocumentMut = out.parse().unwrap();
    assert_eq!(doc["brew"]["trust"].as_array().unwrap().len(), 1);
    assert_eq!(doc["machine"][0]["brew_trust"].as_array().unwrap().len(), 1);
}

#[test]
fn ignoring_an_extra_writes_the_machine_not_the_fleet() {
    let src = "[ignore]\nflatpak = [\"org.fleet\"]\n\n[[machine]]\nname = \"atlas\"\n";
    let out = append_machine_ignore(src, "atlas", "flatpak", "org.mine").unwrap();
    let doc: toml_edit::DocumentMut = out.parse().unwrap();
    assert_eq!(doc["ignore"]["flatpak"].as_array().unwrap().len(), 1);
    assert_eq!(doc["machine"][0]["ignore"]["flatpak"][0].as_str(), Some("org.mine"));
    assert_eq!(append_machine_ignore(&out, "atlas", "flatpak", "org.mine").unwrap(), out);
}

#[test]
fn a_machine_package_can_be_dropped_without_touching_another_machine() {
    let src = "[[machine]]\nname = \"atlas\"\npackages = [\"brew \\\"jq\\\"\", \"brew \\\"bat\\\"\"]\n\n[[machine]]\nname = \"helios\"\npackages = [\"brew \\\"jq\\\"\"]\n";
    let out = remove_machine_package(src, "atlas", "brew \"jq\"").unwrap();
    assert!(out.contains("bat"), "dropped a sibling it was not asked about");
    assert_eq!(out.matches("jq").count(), 1);
    for (machine, token) in [("nope", "brew \"jq\""), ("helios", "brew \"absent\"")] {
        assert_eq!(remove_machine_package(&out, machine, token).unwrap(), out);
    }
}

#[test]
fn dropping_an_extension_never_reaches_another_machine() {
    let src = "[[machine]]\nname = \"atlas\"\nextensions = [\"a@x\"]\n\n[[machine]]\nname = \"helios\"\nextensions = [\"a@x\"]\n";
    let out = remove_machine_extension(src, "atlas", "a@x").unwrap();
    assert_eq!(out.matches("a@x").count(), 1);
    for (machine, uuid) in [("nope", "a@x"), ("helios", "absent@x")] {
        assert_eq!(remove_machine_extension(&out, machine, uuid).unwrap(), out);
    }
}

#[test]
fn ignore_edit_preserves_comments_and_dedups() {
    let src = "# my fleet\n[ignore]\nflatpak = [\"org.keep\"] # baseline\n";
    let out = append_ignore(src, "flatpak", "org.new").unwrap();
    assert!(out.contains("# my fleet"), "lost top comment: {out}");
    assert!(out.contains("# baseline"), "lost inline comment: {out}");
    assert!(out.contains("org.new"));
    let again = append_ignore(&out, "flatpak", "org.new").unwrap();
    assert_eq!(again.matches("org.new").count(), 1);
}

#[test]
fn ignore_edit_creates_missing_section() {
    let out = append_ignore("[[machine]]\nname = \"m\"\nos = \"linux\"\n", "flatpak", "org.x").unwrap();
    let doc: toml_edit::DocumentMut = out.parse().unwrap();
    assert_eq!(doc["ignore"]["flatpak"][0].as_str(), Some("org.x"));
}

#[test]
fn trust_add_preserves_comments_and_dedups() {
    let src = "# my fleet\n[brew]\ntrust = [\"user/keep\"] # baseline\n";
    let out = append_trust(src, "user/new").unwrap();
    assert!(out.contains("# my fleet"), "lost top comment: {out}");
    assert!(out.contains("# baseline"), "lost inline comment: {out}");
    assert!(out.contains("user/new"));
    let again = append_trust(&out, "user/new").unwrap();
    assert_eq!(again.matches("user/new").count(), 1);
}

#[test]
fn trust_add_creates_missing_section() {
    let out = append_trust("[[machine]]\nname = \"m\"\nos = \"linux\"\n", "user/tap").unwrap();
    let doc: toml_edit::DocumentMut = out.parse().unwrap();
    assert_eq!(doc["brew"]["trust"][0].as_str(), Some("user/tap"));
}

#[test]
fn trust_remove_drops_only_the_named_tap() {
    let src = "[brew]\ntrust = [\"a/one\", \"b/two\"] # keep b\n";
    let out = remove_trust(src, "a/one").unwrap();
    assert!(!out.contains("a/one"), "did not drop: {out}");
    assert!(out.contains("b/two"), "dropped the wrong one: {out}");
    assert!(out.contains("# keep b"), "lost inline comment: {out}");
    assert_eq!(remove_trust(&out, "nope/gone").unwrap(), out);
    assert_eq!(
        remove_trust("[[machine]]\nname=\"m\"\nos=\"linux\"\n", "x/y").unwrap(),
        "[[machine]]\nname=\"m\"\nos=\"linux\"\n"
    );
}

// Refusals and the remaining writers.

#[test]
fn a_writer_refuses_text_that_is_not_toml() {
    match append_machine_trust("[[machine", "atlas", "a/b") {
        Err(EditError::Parse(ctx, _)) => assert_eq!(ctx, "parsing temper.toml for the brew_trust edit"),
        other => panic!("expected a parse refusal, got {other:?}"),
    }
    assert!(matches!(remove_trust("= nope", "a/b"), Err(EditError::Parse(_, _))));
}

#[test]
fn a_machine_write_refuses_an_undeclared_machine() {
    let e = append_machine_rpm(DOC, "nope", "x").unwrap_err();
    assert_eq!(e.message(), "temper.toml declares no machine named 'nope'");
}

#[test]
fn a_machine_write_refuses_a_key_that_is_not_an_array() {
    let src = "[[machine]]\nname = \"atlas\"\nrpm_ostree = \"one\"\n";
    let e = append_machine_rpm(src, "atlas", "x").unwrap_err();
    assert_eq!(e.message(), "[[machine]].rpm_ostree is not an array");
}

#[test]
fn a_fleet_write_refuses_a_section_that_is_not_a_table() {
    let e = append_trust("brew = 3\n", "a/b").unwrap_err();
    assert_eq!(e.message(), "[brew] in temper.toml is not a table");
    let e = append_ignore("[ignore]\nflatpak = 1\n", "flatpak", "x").unwrap_err();
    assert_eq!(e.message(), "[ignore].flatpak is not an array");
}

#[test]
fn has_machine_reads_the_machine_names() {
    assert_eq!(has_machine(DOC, "helios").unwrap(), true);
    assert_eq!(has_machine(DOC, "nope").unwrap(), false);
    assert_eq!(has_machine("", "atlas").unwrap(), false);
}

#[test]
fn a_new_machine_is_appended_once() {
    let out = append_machine(DOC, "zeus", "linux", Some("server"), "brewfiles/zeus").unwrap();
    let v = parses(&out);
    let m = machine(&v, "zeus");
    assert_eq!(m["os"].as_str(), Some("linux"));
    assert_eq!(m["role"].as_str(), Some("server"));
    assert_eq!(m["brewfile"].as_str(), Some("brewfiles/zeus"));
    assert_eq!(m["apps"].as_array().map(|a| a.len()), Some(0));
    assert!(out.contains("# fleet spec — keep this comment"));
    let e = append_machine(&out, "zeus", "linux", None, "b").unwrap_err();
    assert!(matches!(e, EditError::MachineExists(ref n) if n == "zeus"), "{e:?}");
    let bare = append_machine("", "solo", "mac", None, "brewfiles/solo").unwrap();
    let v = parses(&bare);
    assert!(machine(&v, "solo").get("role").is_none());
}

#[test]
fn machine_ignore_refuses_an_ignore_that_is_not_a_table() {
    let src = "[[machine]]\nname = \"atlas\"\nignore = 3\n";
    let e = append_machine_ignore(src, "atlas", "flatpak", "x").unwrap_err();
    assert_eq!(e.message(), "[machine.ignore] is not a table");
}
