use temper::settings::{
    effective, find, keys, normalize, parse_bool, settings, settings_get, settings_set, settings_unset, RawValue, SettingValue,
    SettingsError,
};

#[test]
fn every_key_is_listed_in_table_order() {
    assert_eq!(
        keys(),
        vec!["git.remind", "git.auto_commit", "git.auto_push", "git.auto_pull", "git.auto_rebase", "update.mode"]
    );
}

#[test]
fn values_are_validated_and_normalized() {
    let mode = find("update.mode").unwrap();
    assert_eq!(normalize(&mode, "auto").unwrap(), ("auto".to_string(), SettingValue::Str("auto".into())));
    assert_eq!(normalize(&mode, " Prompt ").unwrap().0, "prompt");
    assert!(normalize(&mode, "sometimes").is_err());
    let commit = find("git.auto_commit").unwrap();
    assert!(normalize(&commit, "maybe").is_err());
    assert_eq!(normalize(&commit, "true").unwrap(), ("on".to_string(), SettingValue::Bool(true)));
    assert_eq!(parse_bool(" NO "), Ok(false));
    assert!(find("nonsense.key").is_err());
    assert_eq!(
        find("nonsense.key").unwrap_err().message(),
        "unknown setting `nonsense.key` — run `temper configure keys` for the full list"
    );
    assert_eq!(
        normalize(&mode, "sometimes").unwrap_err(),
        SettingsError::NotMode("update.mode".into(), "sometimes".into())
    );
}

#[test]
fn defaults_match_the_git_and_update_defaults() {
    let got: Vec<(&str, String)> = settings().iter().map(|s| (s.key, effective(s, None))).collect();
    assert_eq!(got[0], ("git.remind", "on".to_string()));
    assert_eq!(got[1], ("git.auto_commit", "off".to_string()));
    assert_eq!(got[5], ("update.mode", "prompt".to_string()));
    let push = find("git.auto_push").unwrap();
    assert_eq!(effective(&push, Some(RawValue::Bool(true))), "on");
    assert_eq!(effective(&push, Some(RawValue::Str("yes".into()))), "off");
}

#[test]
fn set_get_unset_roundtrip_bool() {
    let text = "# fleet\n[vars]\nEDITOR = \"hx\"\n";
    assert_eq!(settings_get(text, "git.auto_push").unwrap(), "off");
    let (shown, written) = settings_set(text, "git.auto_push", "true", "0.9.0").unwrap();
    assert_eq!(shown, "on");
    assert_eq!(settings_get(&written, "git.auto_push").unwrap(), "on");
    assert!(written.contains("[git]") && written.contains("auto_push = true"));
    assert!(written.contains("# fleet") && written.contains("EDITOR = \"hx\""));
    assert!(written.contains("temper_version ="));
    let cleared = settings_unset(&written, "git.auto_push", "0.9.0").unwrap();
    assert_eq!(settings_get(&cleared, "git.auto_push").unwrap(), "off");
    assert!(!cleared.contains("auto_push"));
}

#[test]
fn mode_validates_and_bool_validates() {
    let (shown, written) = settings_set("", "update.mode", "auto", "0.9.0").unwrap();
    assert_eq!(shown, "auto");
    assert_eq!(settings_get(&written, "update.mode").unwrap(), "auto");
    assert_eq!(
        settings_set("", "update.mode", "sometimes", "0.9.0"),
        Err(SettingsError::NotMode("update.mode".into(), "sometimes".into()))
    );
    assert_eq!(settings_set("", "git.auto_commit", "maybe", "0.9.0"), Err(SettingsError::NotBool("maybe".into())));
    assert_eq!(settings_set("", "nonsense.key", "on", "0.9.0"), Err(SettingsError::UnknownKey("nonsense.key".into())));
    assert!(settings_unset("", "nonsense.key", "0.9.0").is_err());
    assert!(settings_get("", "nonsense.key").is_err());
}

#[test]
fn set_refuses_a_non_table_and_broken_text() {
    let e = settings_set("git = 3\n", "git.remind", "off", "0.9.0").unwrap_err();
    assert_eq!(e.message(), "[git] in temper.toml is not a table");
    let e = settings_set("[git\n", "git.remind", "off", "0.9.0").unwrap_err();
    assert!(e.message().starts_with("parsing temper.toml: "));
    assert!(settings_unset("[git\n", "git.remind", "0.9.0").is_err());
}

#[test]
fn unset_on_an_unset_key_keeps_the_text() {
    let text = "temper_version = \"0.9.0\"\n# c\n[git]\nremind = false\n";
    assert_eq!(settings_unset(text, "git.auto_push", "0.9.0").unwrap(), text);
    assert_eq!(settings_get(text, "git.remind").unwrap(), "off");
    assert_eq!(settings_get("[git]\nremind = 1\n", "git.remind").unwrap(), "on");
}
