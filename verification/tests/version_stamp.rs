use temper::manifest::UpdateMode;
use temper::version_stamp::{peek_update_mode, peek_version_stamp, stamp_version};

const VERSION: &str = "1.4.2";

#[test]
fn peek_stamp_and_mode_are_lenient() {
    let broken = "temper_version = \"9.9.9\"\n[update]\nmode = \"warn\"\nfuture_field = 1\n";
    assert_eq!(peek_version_stamp(broken).as_deref(), Some("9.9.9"));
    assert_eq!(peek_update_mode(broken), UpdateMode::Warn);
    assert_eq!(peek_version_stamp("[vars]\nA=\"b\"\n"), None);
    assert_eq!(peek_update_mode("[vars]\nA=\"b\"\n"), UpdateMode::Prompt);
    assert_eq!(peek_version_stamp("= = ="), None);
    assert_eq!(peek_update_mode("= = ="), UpdateMode::Prompt);
}

#[test]
fn stamp_is_prepended_updated_and_monotonic() {
    let src = "[vars]\nEDITOR = \"hx\"\n";
    let stamped = stamp_version(src, VERSION).unwrap();
    assert!(stamped.starts_with(&format!("temper_version = \"{VERSION}\"\n")));
    assert_eq!(peek_version_stamp(&stamped).as_deref(), Some(VERSION));
    assert!(stamped.contains("EDITOR = \"hx\""));

    assert_eq!(stamp_version(&stamped, VERSION).unwrap(), stamped);

    let newer = "temper_version = \"999.0.0\"\n[vars]\nA = \"b\"\n";
    assert_eq!(stamp_version(newer, VERSION).unwrap(), newer);
}

#[test]
fn an_older_stamp_is_raised_in_place() {
    let src = "# fleet\ntemper_version = \"0.9.0\"\n[vars]\nA = \"b\"\n";
    let out = stamp_version(src, VERSION).unwrap();
    assert_eq!(peek_version_stamp(&out).as_deref(), Some(VERSION));
    assert!(out.starts_with("# fleet\n"));
    assert_eq!(out.matches("temper_version").count(), 1);
    assert!(stamp_version("[[x", VERSION).is_err());
    assert_eq!(peek_update_mode("[update]\nmode = \"auto\"\n"), UpdateMode::Auto);
    assert_eq!(peek_update_mode("[update]\nmode = \"off\"\n"), UpdateMode::Off);
    assert_eq!(peek_update_mode("[update]\nmode = \"sometimes\"\n"), UpdateMode::Prompt);
}
