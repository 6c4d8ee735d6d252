use temper::drift::shell_basename;

#[test]
fn shell_matches_by_basename_across_equivalent_paths() {
    // usrmerge / brew put the same shell at different paths — all match.
    assert_eq!(shell_basename("/usr/bin/zsh"), shell_basename("/bin/zsh"));
    assert_eq!(
        shell_basename("/opt/homebrew/bin/zsh"),
        shell_basename("/bin/zsh")
    );
    // a bare name is its own basename
    assert_eq!(shell_basename("zsh"), "zsh");
    // different shells must NOT match
    assert_ne!(shell_basename("/bin/bash"), shell_basename("/bin/zsh"));
}

use temper::drift::{kind, parse_mode, split_words, target, verdict, AssertSeen, EvalError};
use temper::manifest::{Assert, ContainsLine, GroupCheck, JsonSemantic, ModeCheck};

fn assert_none() -> Assert {
    Assert {
        absent: None,
        contains_line: None,
        mode: None,
        executable_resolves: None,
        not_member: None,
        shell: None,
        json_semantic: None,
        severity: None,
        message: None,
        os: None,
        role: None,
    }
}

fn ok(a: &Assert, seen: AssertSeen) -> (bool, String) {
    verdict(a, &seen).unwrap()
}

#[test]
fn absent_and_resolves_verdicts() {
    let mut a = assert_none();
    a.absent = Some("~/.old".into());
    assert_eq!(kind(&a), "absent");
    assert_eq!(target(&a), "~/.old");
    assert_eq!(ok(&a, AssertSeen::Exists(true)), (false, "should not exist".into()));
    assert_eq!(ok(&a, AssertSeen::Exists(false)), (true, "absent".into()));
    assert_eq!(verdict(&a, &AssertSeen::Resolves(true)), Err(EvalError::WrongObservation));

    let mut e = assert_none();
    e.executable_resolves = Some("jq".into());
    assert_eq!(ok(&e, AssertSeen::Resolves(true)), (true, "resolves".into()));
    assert_eq!(ok(&e, AssertSeen::Resolves(false)), (false, "not on PATH".into()));
}

#[test]
fn contains_line_matches_trimmed_lines() {
    let mut a = assert_none();
    a.contains_line = Some(ContainsLine { file: "~/.zshrc".into(), line: "  source ~/.image ".into() });
    assert_eq!(ok(&a, AssertSeen::Text(None)), (false, "file missing".into()));
    assert_eq!(ok(&a, AssertSeen::Text(Some("x\n\tsource ~/.image\r\ny\n".into()))), (true, "line present".into()));
    assert_eq!(
        ok(&a, AssertSeen::Text(Some("source ~/.other\n".into()))),
        (false, "missing line `  source ~/.image `".into())
    );
}

#[test]
fn mode_compares_permission_bits_in_octal() {
    assert_eq!(parse_mode("0o600"), Some(0o600));
    assert_eq!(parse_mode("644"), Some(0o644));
    assert_eq!(parse_mode("+755"), Some(0o755));
    assert_eq!(parse_mode("0o"), None);
    assert_eq!(parse_mode("89"), None);
    assert_eq!(parse_mode("77777777777"), None);
    let mut a = assert_none();
    a.mode = Some(ModeCheck { path: "~/.ssh".into(), mode: "0o700".into() });
    assert_eq!(ok(&a, AssertSeen::Mode(None)), (false, "path missing".into()));
    assert_eq!(ok(&a, AssertSeen::Mode(Some(0o40700))), (true, "mode 700".into()));
    assert_eq!(ok(&a, AssertSeen::Mode(Some(0o100755))), (false, "mode 755, want 700".into()));
    a.mode = Some(ModeCheck { path: "~/.ssh".into(), mode: "rwx".into() });
    assert_eq!(verdict(&a, &AssertSeen::Mode(Some(0o700))), Err(EvalError::BadMode));
    assert_eq!(verdict(&a, &AssertSeen::Mode(None)).unwrap().1, "path missing");
}

#[test]
fn group_shell_and_json_verdicts() {
    assert_eq!(split_words("  wheel staff\n docker "), vec!["wheel", "staff", "docker"]);
    let mut g = assert_none();
    g.not_member = Some(GroupCheck { group: "docker".into() });
    assert_eq!(target(&g), "group:docker");
    assert_eq!(ok(&g, AssertSeen::Groups("wheel docker\n".into())), (false, "in group docker".into()));
    assert_eq!(ok(&g, AssertSeen::Groups("wheel dockerd".into())), (true, "not a member".into()));

    let mut s = assert_none();
    s.shell = Some("/bin/zsh".into());
    assert_eq!(ok(&s, AssertSeen::Shell(Some("/usr/bin/zsh".into()))), (true, "/usr/bin/zsh".into()));
    assert_eq!(ok(&s, AssertSeen::Shell(Some("/bin/bash".into()))), (false, "shell /bin/bash, want /bin/zsh".into()));
    assert_eq!(ok(&s, AssertSeen::Shell(None)), (false, "could not read login shell".into()));

    let mut j = assert_none();
    j.json_semantic = Some(JsonSemantic { file: "~/.config/x.json".into(), against: "assets/x.json".into() });
    assert_eq!(ok(&j, AssertSeen::Json(None)), (false, "file missing".into()));
    assert_eq!(ok(&j, AssertSeen::Json(Some(true))), (true, "matches reference".into()));
    assert_eq!(ok(&j, AssertSeen::Json(Some(false))), (false, "differs from reference".into()));

    assert_eq!(verdict(&assert_none(), &AssertSeen::Exists(true)), Err(EvalError::NoCheck));
}
