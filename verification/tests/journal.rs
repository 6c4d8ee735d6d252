use temper::dconf::strip_dump;
use temper::journal::{
    discard_run, hash, hash_text, need, newest, newest_first, step, uninstall_command, Entry, Journal, Need, Revert,
    Seen, SkipWhy, Step, UndoTally, UninstallCommand,
};

fn strings(items: &[&str]) -> Vec<String> {
    items.iter().map(|s| s.to_string()).collect()
}

const EMPTY_BLAKE3: &str = "af1349b9f5f9a1a6a0404dea36dcc9499bcb25c9adc112b7cc9a93cae41f3262";

#[test]
fn the_content_hash_is_blake3_hex() {
    assert_eq!(hash(b""), EMPTY_BLAKE3);
    assert_eq!(hash_text(""), EMPTY_BLAKE3);
    assert_eq!(hash(b"abc").len(), 64);
    assert_ne!(hash(b"abc"), "abc");
    assert_eq!(hash(b"abc"), hash_text("abc"));
}

#[test]
fn a_run_id_is_seconds_then_padded_nanoseconds() {
    let j = Journal::begin("/state".into(), 1_700_000_000, 42);
    assert_eq!(j.id(), "1700000000-000000042");
    assert_eq!(j.root(), "/state");
    assert!(j.entries().is_empty());
    assert!(!j.has_entries());
    let j = Journal::begin("/s".into(), 5, 123_456_789);
    assert_eq!(j.id(), "5-123456789");
}

#[test]
fn package_installs_are_recorded_and_empty_ones_are_not() {
    let mut j = Journal::begin("/state".into(), 1, 0);
    j.record_packages("gnome-extensions", &[]);
    assert!(j.entries().is_empty(), "an empty install must add no entry");

    j.record_packages("rpm-ostree", &["vpn".to_string(), "vpn-gui".to_string()]);
    match &j.entries()[0] {
        Entry::PackagesInstalled { provider, packages } => {
            assert_eq!(provider, "rpm-ostree");
            assert_eq!(packages.len(), 2);
        }
        _ => panic!("expected a package entry"),
    }
}

#[test]
fn a_write_records_create_or_restore_by_what_was_there() {
    let mut j = Journal::begin("/state".into(), 1, 0);
    j.record_write("/tmp/new", None, b"");
    j.record_write("/tmp/old", Some(b""), b"abc");
    assert_eq!(
        j.entries()[0],
        Entry::Create { path: "/tmp/new".into(), hash: EMPTY_BLAKE3.into() }
    );
    assert_eq!(
        j.entries()[1],
        Entry::Restore { path: "/tmp/old".into(), before: EMPTY_BLAKE3.into(), after: hash(b"abc") }
    );
    j.record_unrevertible("exec assets/x.sh");
    j.record_dconf("/org/k", None, "'v'".into());
    assert_eq!(j.entries().len(), 4);
    assert!(j.has_entries());
}

#[test]
fn the_tree_guard_hashes_the_filtered_dump_not_the_raw_one() {
    let strip = vec!["last-selected".to_string()];
    let raw_a = "[/]\nk='v'\nlast-selected='a'\n";
    let raw_b = "[/]\nk='v'\nlast-selected='b'\n";
    assert_ne!(hash(raw_a.as_bytes()), hash(raw_b.as_bytes()));
    assert_eq!(
        hash(strip_dump(raw_a, &strip).as_bytes()),
        hash(strip_dump(raw_b, &strip).as_bytes()),
        "churn in a stripped key must not invalidate the undo guard"
    );
    // …and undo acts on it: the churned subtree still reverts.
    let mut j = Journal::begin("/state".into(), 1, 0);
    j.record_dconf_tree("/org/gnome/shell/", &strip, b"prior", &strip_dump(raw_a, &strip));
    let e = j.entries()[0].clone();
    assert_eq!(need(&e), Need::DconfDump("/org/gnome/shell/".into()));
    assert_eq!(
        step(&e, false, &Seen::Dump(Some(raw_b.into()))),
        Step::Perform {
            revert: Revert::LoadTree { path: "/org/gnome/shell/".into(), object: hash(b"prior") },
            count: 1
        }
    );
    assert_eq!(
        step(&e, false, &Seen::Dump(Some("[/]\nk='changed'\n".into()))),
        Step::Skip { count: 1, why: SkipWhy::Changed }
    );
    assert_eq!(step(&e, false, &Seen::Dump(None)), Step::Skip { count: 1, why: SkipWhy::Changed });
}

#[test]
fn a_dconf_key_reverts_only_while_it_holds_what_was_written() {
    let set = Entry::DconfKey { key: "/org/k".into(), before: Some("'old'".into()), after: "'new'".into() };
    let unset = Entry::DconfKey { key: "/org/k".into(), before: None, after: "'new'".into() };
    assert_eq!(need(&set), Need::DconfValue("/org/k".into()));
    assert_eq!(
        step(&set, false, &Seen::Value(Some("'new'".into()))),
        Step::Perform { revert: Revert::DconfWrite { key: "/org/k".into(), value: "'old'".into() }, count: 1 }
    );
    assert_eq!(
        step(&unset, false, &Seen::Value(Some("'new'".into()))),
        Step::Perform { revert: Revert::DconfReset { key: "/org/k".into() }, count: 1 }
    );
    assert_eq!(
        step(&set, false, &Seen::Value(Some("'user'".into()))),
        Step::Skip { count: 1, why: SkipWhy::Changed }
    );
    assert_eq!(step(&set, false, &Seen::Value(None)), Step::Skip { count: 1, why: SkipWhy::Changed });
    assert_eq!(step(&set, true, &Seen::Value(Some("'new'".into()))), Step::WouldRevert { count: 1 });
}

#[test]
fn a_file_reverts_only_while_it_hashes_to_what_was_left() {
    let created = Entry::Create { path: "/tmp/x".into(), hash: hash(b"mine") };
    let restored = Entry::Restore { path: "/tmp/y".into(), before: "obj".into(), after: hash(b"mine") };
    assert_eq!(need(&created), Need::File("/tmp/x".into()));
    assert_eq!(
        step(&created, false, &Seen::Bytes(Some(b"mine".to_vec()))),
        Step::Perform { revert: Revert::RemoveFile { path: "/tmp/x".into() }, count: 1 }
    );
    assert_eq!(
        step(&restored, false, &Seen::Bytes(Some(b"mine".to_vec()))),
        Step::Perform { revert: Revert::RestoreFile { path: "/tmp/y".into(), object: "obj".into() }, count: 1 }
    );
    assert_eq!(
        step(&created, false, &Seen::Bytes(Some(b"edited".to_vec()))),
        Step::Skip { count: 1, why: SkipWhy::Changed }
    );
    assert_eq!(step(&created, false, &Seen::Bytes(None)), Step::Skip { count: 1, why: SkipWhy::Gone });
    assert_eq!(step(&restored, true, &Seen::Bytes(Some(b"mine".to_vec()))), Step::WouldRevert { count: 1 });
}

#[test]
fn packages_unrevertible_and_unknown_entries() {
    let pk = Entry::PackagesInstalled { provider: "flatpak".into(), packages: strings(&["a", "b"]) };
    assert_eq!(need(&pk), Need::Nothing);
    assert_eq!(step(&pk, true, &Seen::Nothing), Step::WouldRevert { count: 2 });
    assert_eq!(
        step(&pk, false, &Seen::Nothing),
        Step::Perform { revert: Revert::Uninstall { provider: "flatpak".into(), packages: strings(&["a", "b"]) }, count: 2 }
    );
    let un = Entry::Unrevertible { what: "sysfile /etc/x".into() };
    assert_eq!(step(&un, false, &Seen::Nothing), Step::Skip { count: 1, why: SkipWhy::CannotRevert });
    assert_eq!(step(&Entry::Unknown, false, &Seen::Nothing), Step::Skip { count: 1, why: SkipWhy::UnknownEntry });
}

#[test]
fn the_tally_keeps_a_run_with_skips() {
    let mut t = UndoTally::new();
    t.settle(&Step::WouldRevert { count: 2 }, false);
    assert_eq!((t.reverted, t.skipped), (2, 0));
    t.settle(&Step::Perform { revert: Revert::RemoveFile { path: "x".into() }, count: 1 }, true);
    assert_eq!((t.reverted, t.skipped), (3, 0));
    assert!(discard_run(false, &t));
    assert!(!discard_run(true, &t), "a dry run keeps the run");
    t.settle(&Step::Perform { revert: Revert::RemoveFile { path: "x".into() }, count: 1 }, false);
    t.settle(&Step::Skip { count: 1, why: SkipWhy::Gone }, true);
    assert_eq!((t.reverted, t.skipped), (3, 2));
    assert!(!discard_run(false, &t), "a skip keeps the run to retry");
}

#[test]
fn an_unknown_provider_is_not_uninstalled() {
    assert_eq!(uninstall_command("not-a-provider", &["x".to_string()]), UninstallCommand::UnknownProvider);
    assert_eq!(uninstall_command("not-a-provider", &[]), UninstallCommand::NothingToDo);
}

#[test]
fn each_provider_uninstalls_with_its_own_command() {
    assert_eq!(
        uninstall_command("flatpak", &strings(&["org.a"])),
        UninstallCommand::Run(strings(&["flatpak", "uninstall", "-y", "--noninteractive", "--user", "org.a"]))
    );
    assert_eq!(
        uninstall_command("vscode", &strings(&["a.b", "c.d"])),
        UninstallCommand::Run(strings(&["code", "--uninstall-extension", "a.b", "--uninstall-extension", "c.d"]))
    );
    assert_eq!(
        uninstall_command("mas", &strings(&["123"])),
        UninstallCommand::Run(strings(&["sudo", "mas", "uninstall", "123"]))
    );
    assert_eq!(
        uninstall_command("cask", &strings(&["zoom"])),
        UninstallCommand::Run(strings(&["brew", "uninstall", "--cask", "zoom"]))
    );
    assert_eq!(
        uninstall_command("rpm-ostree", &strings(&["vpn"])),
        UninstallCommand::Run(strings(&["rpm-ostree", "uninstall", "--idempotent", "-y", "vpn"]))
    );
}

#[test]
fn runs_list_newest_first_and_ties_keep_their_order() {
    let runs = vec![(10, 0, "a".to_string()), (30, 5, "b".to_string()), (30, 5, "c".to_string()), (20, 9, "d".to_string())];
    assert_eq!(newest_first(runs.clone()), strings(&["b", "c", "d", "a"]));
    assert_eq!(newest(runs), Some("b".to_string()));
    assert_eq!(newest(Vec::new()), None);
}
