use std::collections::BTreeMap;
use temper::interface::{provider_table, spec, unrevertible_reason, Col};
use temper::plan::{kind_spec, Answer};

#[test]
fn the_revertible_column_is_the_source_for_the_report() {
    for name in ["brew-trust", "flatpak-remote", "flatpak"] {
        let why = unrevertible_reason(name)
            .unwrap_or_else(|| panic!("`{name}` should declare why it is not revertible"));
        assert!(why.len() > 20, "`{name}` needs a real reason, got {why:?}");
    }
    assert!(unrevertible_reason("brew").is_none());
    assert!(unrevertible_reason("not-a-provider").is_none());
}

#[test]
fn provider_kinds_are_registered_findings() {
    for p in provider_table().iter() {
        assert!(!p.kinds.is_empty(), "provider `{}` emits no kinds", p.name);
        for k in p.kinds.iter() {
            assert!(
                kind_spec(k).is_some(),
                "provider `{}` emits kind `{k}`, which the registry does not register",
                p.name
            );
        }
    }
}

#[test]
fn a_claimed_prune_is_a_prune_someone_can_run() {
    for p in provider_table().iter() {
        let names_prune = p.kinds.iter().filter_map(|k| kind_spec(k)).any(|k| {
            k.converge
                .iter()
                .chain(k.absorb.iter())
                .any(|a| matches!(a, Answer::Verb(c) if *c == "temper prune"))
        });
        assert_eq!(
            p.prune.answered(),
            names_prune,
            "provider `{}` claims prune={:?} but its registered kinds {} name `temper prune`",
            p.name,
            p.prune,
            if names_prune { "do" } else { "do not" }
        );
    }
}

#[test]
fn a_claimed_reconcile_is_a_reconcile_someone_can_run() {
    for p in provider_table().iter() {
        let names_reconcile = p.kinds.iter().filter_map(|k| kind_spec(k)).any(|k| {
            k.absorb
                .iter()
                .any(|a| matches!(a, Answer::Verb(c) if *c == "temper reconcile"))
        });
        assert_eq!(
            p.reconcile.answered(),
            names_reconcile,
            "provider `{}` claims reconcile={:?}, but its kinds disagree",
            p.name,
            p.reconcile
        );
    }
}

#[test]
fn reconcile_requires_a_machine_scope_to_write_to() {
    for p in provider_table().iter() {
        if p.reconcile.answered() {
            assert!(
                p.machine_scope.answered(),
                "provider `{}` claims reconcile but declares no machine scope",
                p.name
            );
        }
    }
}

#[test]
fn a_kind_belongs_to_exactly_one_provider() {
    let mut seen: BTreeMap<&str, &str> = Default::default();
    for p in provider_table().iter() {
        for k in p.kinds.iter() {
            if let Some(other) = seen.insert(k, p.name) {
                panic!("kind `{k}` is claimed by both `{other}` and `{}`", p.name);
            }
        }
    }
}

#[test]
fn declining_a_column_requires_saying_why() {
    for p in provider_table().iter() {
        for (col, label) in [
            (p.fleet_scope, "fleet_scope"),
            (p.machine_scope, "machine_scope"),
            (p.observe, "observe"),
            (p.install, "install"),
            (p.prune, "prune"),
            (p.reconcile, "reconcile"),
            (p.ignore, "ignore"),
            (p.revertible, "revertible"),
            (p.residue, "residue"),
        ] {
            if let Col::No(why) | Col::NA(why) = col {
                assert!(why.len() > 20, "provider `{}` declines `{label}` without a real reason", p.name);
            }
        }
    }
}

#[test]
fn spec_finds_a_provider_by_name() {
    let p = spec("dconf").expect("dconf is a provider");
    assert_eq!(p.name, "dconf");
    assert_eq!(p.kinds, vec!["dconf-key", "dconf-extra", "dconf-uncaptured", "dconf-unavailable"]);
    assert!(matches!(p.prune, Col::NA(_)));
    assert!(spec("apt").is_none());
    assert_eq!(
        unrevertible_reason("profile"),
        Some("approval is the user's click; temper cannot un-approve it")
    );
}
