use temper::primitives::{
    block_desired, block_state, copy_state, exec_env, exec_state, ExecOpts, ini_current, ini_desired, ini_split, ini_state, markers,
    sysfile_install_argv, BlockError, FileState, SysfileOpts,
};

#[test]
fn install_argv_shape() {
    let opts = SysfileOpts { mode: Some("0755".into()), owner: Some("root".into()), group: Some("root".into()) };
    let argv = sysfile_install_argv("/s", "/etc/x", &opts);
    assert_eq!(
        argv,
        vec!["sudo", "install", "-D", "-m", "0755", "-o", "root", "-g", "root", "/s", "/etc/x"]
    );
    let bare = SysfileOpts { mode: None, owner: None, group: None };
    let argv = sysfile_install_argv("/s", "/d", &bare);
    assert_eq!(argv, vec!["sudo", "install", "-D", "/s", "/d"]);
}

#[test]
fn file_states_label_and_judge() {
    assert_eq!(FileState::InSync.label(), "in sync");
    assert!(FileState::Unavailable.is_ok());
    assert!(!FileState::Drifted.is_ok());
    assert_eq!(copy_state(true, b"x", None), FileState::Missing);
    assert_eq!(copy_state(true, b"x", Some(b"other")), FileState::InSync);
    assert_eq!(copy_state(false, b"x", Some(b"y")), FileState::Drifted);
    assert_eq!(copy_state(false, b"x", Some(b"x")), FileState::InSync);
    assert_eq!(exec_state(None), (true, "no drift-check".to_string()));
    assert_eq!(exec_state(Some(false)), (false, "drifted".to_string()));
}

#[test]
fn a_block_is_appended_then_replaced_in_place() {
    let (b, e) = markers("path");
    assert_eq!(b, "# >>> temper:path >>>");
    assert_eq!(e, "# <<< temper:path <<<");
    let first = block_desired("export A=1", &b, &e, "export PATH=x\n\n").unwrap();
    assert_eq!(first, "export A=1\n\n# >>> temper:path >>>\nexport PATH=x\n# <<< temper:path <<<\n");
    let second = block_desired(&first, &b, &e, "export PATH=y").unwrap();
    assert_eq!(second, "export A=1\n\n# >>> temper:path >>>\nexport PATH=y\n# <<< temper:path <<<\n");
    assert_eq!(block_desired("", &b, &e, "x").unwrap(), format!("{b}\nx\n{e}\n"));
    assert_eq!(block_state(Some(&first), "export PATH=x", "path"), Ok(FileState::InSync));
    assert_eq!(block_state(Some(&first), "export PATH=z", "path"), Ok(FileState::Drifted));
    assert_eq!(block_state(None, "x", "path"), Ok(FileState::Missing));
}

#[test]
fn a_malformed_region_is_refused() {
    let (b, e) = markers("m");
    let orphan = format!("{e}\nstuff\n{b}\n");
    assert_eq!(block_desired(&orphan, &b, &e, "x"), Err(BlockError::Malformed(b.clone(), e.clone())));
    assert_eq!(block_desired("", &b, &e, &b), Err(BlockError::MarkerInBody));
}

#[test]
fn ini_keys_are_read_and_written_in_their_section() {
    assert_eq!(ini_split("Desktop Entry.Icon"), (Some("Desktop Entry".to_string()), "Icon".to_string()));
    assert_eq!(ini_split("Icon"), (None, "Icon".to_string()));
    let content = "[Desktop Entry]\nName=App\nIcon=old\n[Other]\nIcon=keep\n";
    let sec = Some("Desktop Entry".to_string());
    assert_eq!(ini_current(content, &sec, "Icon"), Some("old".to_string()));
    assert_eq!(
        ini_desired(content, &sec, "Icon", "new"),
        "[Desktop Entry]\nName=App\nIcon=new\n[Other]\nIcon=keep\n"
    );
    assert_eq!(
        ini_desired("[Desktop Entry]\nName=App\n[Other]\n", &sec, "Icon", "x"),
        "[Desktop Entry]\nName=App\nIcon=x\n[Other]\n"
    );
    assert_eq!(
        ini_desired("a=1\n", &Some("S".to_string()), "k", "v"),
        "a=1\n\n[S]\nk=v\n"
    );
    assert_eq!(ini_desired("", &None, "k", "v"), "k=v\n");
    assert_eq!(ini_state(Some(content), "Desktop Entry.Icon", "old"), FileState::InSync);
    assert_eq!(ini_state(Some(content), "Desktop Entry.Icon", "new"), FileState::Drifted);
    assert_eq!(ini_state(None, "Icon", "x"), FileState::Missing);
}

fn opts() -> ExecOpts {
    ExecOpts { secrets: vec!["TOKEN".into()], home: "/h".into(), machine: "m1".into(), os: "linux".into() }
}

#[test]
fn exec_env_carries_context_then_secrets() {
    let env = exec_env(&opts(), &[("TOKEN".to_string(), Some("s3".to_string()))]).unwrap();
    let want: Vec<(String, String)> = vec![
        ("TEMPER_HOME".into(), "/h".into()),
        ("TEMPER_MACHINE".into(), "m1".into()),
        ("TEMPER_OS".into(), "linux".into()),
        ("TOKEN".into(), "s3".into()),
    ];
    assert_eq!(env, want);
}

#[test]
fn exec_env_refuses_an_unset_secret() {
    let r = exec_env(&opts(), &[("A".to_string(), Some("1".to_string())), ("TOKEN".to_string(), None), ("B".to_string(), None)]);
    assert_eq!(r, Err("exec: required secret env `TOKEN` is not set".to_string()));
}

#[test]
fn ini_lone_bracket_line_is_not_a_header() {
    let text = "[a]\n[\nk=2\n";
    assert_eq!(ini_current(text, &Some("a".to_string()), "k"), Some("2".to_string()));
}
