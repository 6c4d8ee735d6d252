use temper::journal::hash;
use temper::ledger::{components, expand_tilde, is_untouched, refuse_catastrophic, removal, residue, same_parts, Deployed, Ledger, Refusal};

fn dep(hash: &str, kind: &str, path: &str, marker: Option<&str>) -> Deployed {
    Deployed { hash: hash.into(), kind: kind.into(), path: path.into(), marker: marker.map(|m| m.to_string()) }
}

const HOME: &str = "/home/tester";

#[test]
fn a_key_is_the_path_plus_the_marker() {
    assert_eq!(Deployed::key("~/.zshrc", Some("img")), "~/.zshrc#img");
    assert_eq!(Deployed::key("~/.zshrc", None), "~/.zshrc");
    // the collision that is why identity comes from the fields, not the key
    assert_eq!(Deployed::key("~/a#b", None), Deployed::key("~/a", Some("b")));
}

#[test]
fn the_ledger_keeps_keys_in_order_and_replaces_in_place() {
    let mut l = Ledger::new();
    l.insert("b".into(), dep("h1", "copy", "b", None));
    l.insert("a".into(), dep("h2", "copy", "a", None));
    l.insert("b".into(), dep("h3", "copy", "b", None));
    let keys: Vec<&str> = l.entries().iter().map(|(k, _)| k.as_str()).collect();
    assert_eq!(keys, vec!["a", "b"]);
    assert_eq!(l.entries()[1].1.hash, "h3");
    assert_eq!(l.len(), 2);
}

#[test]
fn an_old_ledger_recovers_paths_from_its_keys() {
    let mut l = Ledger::new();
    l.insert("~/.zshrc#img".into(), dep("h", "block", "", Some("img")));
    l.insert("~/.config/x".into(), dep("h", "copy", "", None));
    l.insert("~/kept".into(), dep("h", "copy", "/abs/kept", None));
    l.recover_paths();
    let paths: Vec<&str> = l.entries().iter().map(|(_, d)| d.path.as_str()).collect();
    assert_eq!(paths, vec!["~/.config/x", "~/.zshrc", "/abs/kept"]);
}

#[test]
fn residue_is_what_the_spec_stopped_declaring() {
    let mut l = Ledger::new();
    l.insert("~/.config/kept".into(), dep("h1", "copy", "~/.config/kept", None));
    l.insert("~/.config/dropped".into(), dep("h2", "copy", "~/.config/dropped", None));

    let mut only = Ledger::new();
    only.insert("~/.config/kept".into(), dep("h1", "copy", "~/.config/kept", None));
    let r = residue(&l, &only, Some(HOME));
    assert_eq!(r.len(), 1);
    assert_eq!(r[0].0, "~/.config/dropped");

    // Declaring everything leaves no residue…
    assert!(residue(&l, &l, Some(HOME)).is_empty());
    // …and a machine with no ledger has none either.
    assert!(residue(&Ledger::new(), &Ledger::new(), Some(HOME)).is_empty());

    // A `#` in a deployed filename is not a block marker.
    let file = dep("h", "copy", "~/a#b", None);
    let block = dep("h", "block", "~/a", Some("b"));
    let mut hashy = Ledger::new();
    hashy.insert("file-entry".into(), file);
    hashy.insert("block-entry".into(), block.clone());
    let mut declared = Ledger::new();
    declared.insert("block-entry".into(), block);
    let r = residue(&hashy, &declared, Some(HOME));
    assert_eq!(r.len(), 1, "got {r:?}");
    assert_eq!(r[0].1.path, "~/a#b");
}

#[test]
fn a_respelled_target_is_still_declared() {
    let mut recorded = Ledger::new();
    recorded.insert("~/.config/x".into(), dep("h", "copy", "~/.config/x", None));
    let mut declared = Ledger::new();
    declared.insert("/home/tester/.config/x".into(), dep("h", "copy", "/home/tester//.config/./x/", None));
    assert!(residue(&recorded, &declared, Some(HOME)).is_empty());
    // without a home the two spellings are different files
    assert_eq!(residue(&recorded, &declared, None).len(), 1);
}

#[test]
fn paths_compare_by_component() {
    assert!(same_parts(&components("a//b/./c/"), &components("a/b/c")));
    assert!(!same_parts(&components("./a"), &components("a")));
    assert!(!same_parts(&components("/a"), &components("a")));
    assert_eq!(expand_tilde("~/x", Some("/home/u")), "/home/u/x");
    assert_eq!(expand_tilde("~/x", Some("/home/u/")), "/home/u/x");
    assert_eq!(expand_tilde("~/x", None), "~/x");
    assert_eq!(expand_tilde("/etc/x", Some("/home/u")), "/etc/x");
}

#[test]
fn an_edited_file_is_not_untouched() {
    let rec = dep(&hash(b"original"), "copy", "/tmp/x", None);
    assert!(is_untouched(&rec, Some(b"original")));
    assert!(!is_untouched(&rec, Some(b"the user changed this")), "an edited file must be reported, not removed");
    assert!(!is_untouched(&rec, None), "an absent file is nothing to remove");
    let unknown = dep("", "copy", "/tmp/x", None);
    assert!(!is_untouched(&unknown, Some(b"")), "an unknown hash is never a matching one");
}

#[test]
fn an_edited_block_region_is_not_untouched() {
    let rec = dep(&hash(b"source ~/.image"), "block", "/tmp/zshrc", Some("img"));
    assert!(is_untouched(&rec, Some(b"source ~/.image")));
    assert!(!is_untouched(&rec, Some(b"the user changed this")));
}

#[test]
fn a_catastrophic_path_is_refused_before_anything_is_deleted() {
    let home = Some((HOME, HOME));
    for p in ["/", "/etc", "/usr", HOME, "/home", "/home/tester/..", "/home/tester/../..", "/etc/../..", "/usr/../etc", "../../.."] {
        assert!(refuse_catastrophic(p, p, home).is_err(), "`{p}` must be refused");
    }
    for p in ["/etc/1password/custom_allowed_browsers", "/usr/local/share/x", "/home/tester/.config/old-app"] {
        assert!(refuse_catastrophic(p, p, home).is_ok(), "`{p}` is an ordinary target and must be allowed");
    }
    assert_eq!(refuse_catastrophic("/", "/", home), Err(Refusal::FilesystemRoot));
    assert_eq!(refuse_catastrophic("/etc", "/etc", home), Err(Refusal::TopLevel));
    assert_eq!(refuse_catastrophic(HOME, HOME, home), Err(Refusal::IsHome));
    assert_eq!(refuse_catastrophic("/home", "/home", home), Err(Refusal::TopLevel));
    assert_eq!(refuse_catastrophic("/var/home", "/var/home", Some((HOME, "/var/home/tester"))), Err(Refusal::ContainsHome));
    assert_eq!(refuse_catastrophic("/etc/../x", "/x", home), Err(Refusal::ParentComponent));
    // a resolved form that names the home is caught too
    assert_eq!(refuse_catastrophic("/link/to/home", HOME, home), Err(Refusal::IsHome));
}

#[test]
fn remove_path_consults_the_guard_before_removing_anything() {
    let home = Some((HOME, HOME));
    // A refused path never yields a removal command, not even the escalated one.
    for p in ["/", "/etc", HOME, "/etc/../.."] {
        assert!(removal(p, p, home, true).is_err(), "`{p}` must be refused before any removal");
    }
    assert_eq!(
        removal("/etc/x.conf", "/etc/x.conf", home, false).unwrap(),
        vec!["sudo", "rm", "-f", "--", "/etc/x.conf"]
    );
    assert_eq!(
        removal("/home/tester/.config/old", "/home/tester/.config/old", home, true).unwrap(),
        vec!["sudo", "rm", "-rf", "--", "/home/tester/.config/old"]
    );
}

#[test]
fn refusal_reasons_word_each_case() {
    assert_eq!(Refusal::FilesystemRoot.reason(), "it is the filesystem root");
    assert_eq!(Refusal::IsHome.reason(), "it is your home directory");
    assert_eq!(Refusal::TopLevel.reason(), "it is a top-level directory");
    assert_eq!(Refusal::ContainsHome.reason(), "it contains your home directory");
    assert_eq!(
        Refusal::ParentComponent.reason(),
        "it contains a `..` component, so what it names depends on where it is resolved from"
    );
}
