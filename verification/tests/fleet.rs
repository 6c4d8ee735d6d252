use temper::fleet::{copy_state, resolve_steps, run_install, CopyOutcome, FileState, FleetMachine, FleetStep};

fn step(copy: &str, os: Option<&str>) -> FleetStep {
    FleetStep { copy: Some(copy.into()), to: Some(format!("~/{copy}")), template: false, seed: false, mode: None, os: os.map(|o| o.to_string()) }
}

#[test]
fn steps_gated_to_another_os_are_dropped() {
    let m = FleetMachine { name: "kira".into(), os: "linux".into(), role: None, apps: vec!["zsh".into(), "mac".into()] };
    let r = resolve_steps(&m, vec![vec![step("a", None), step("b", Some("mac"))], vec![step("c", Some("linux"))]]);
    let got: Vec<(String, String)> = r.iter().map(|x| (x.app.clone(), x.step.copy.clone().unwrap())).collect();
    assert_eq!(got, vec![("zsh".to_string(), "a".to_string()), ("mac".to_string(), "c".to_string())]);
}

#[test]
fn copy_state_compares_bytes() {
    assert_eq!(copy_state(b"x", None), FileState::Missing);
    assert_eq!(copy_state(b"x", Some(b"x")), FileState::InSync);
    assert_eq!(copy_state(b"x", Some(b"y")), FileState::Drifted);
    assert_eq!(FileState::Drifted.label(), "drifted");
    assert!(FileState::InSync.is_ok() && !FileState::Missing.is_ok());
}

#[test]
fn install_counts_what_changed() {
    let dry = [CopyOutcome::Previewed(FileState::InSync), CopyOutcome::Previewed(FileState::Missing), CopyOutcome::Previewed(FileState::Drifted)];
    assert_eq!(run_install(&dry), (2, 3));
    let real = [CopyOutcome::Applied(true), CopyOutcome::Applied(false)];
    assert_eq!(run_install(&real), (1, 2));
}
