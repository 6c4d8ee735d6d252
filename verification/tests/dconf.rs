use temper::dconf_describe::describe;
use temper::dconf::{absorbed, diff_dumps, dump_with_key, dump_without_key, group_by_section, key_id, parse_dump, strip_dump, KeyDiff};

#[test]
fn strip_drops_matching_keys_and_empty_sections() {
    let dump = "\
[/]
enabled-extensions=['a']
last-selected-power-profile='balanced'

[org/gnome/shell/monitors]
panel-1='x'

[org/gnome/desktop]
clock-format='24h'
";
    // Strip the bookkeeping key and the whole per-monitor section.
    let out = strip_dump(dump, &["last-selected".into(), "monitors/".into()]);
    assert!(out.contains("enabled-extensions"), "kept real key: {out}");
    assert!(out.contains("clock-format"));
    assert!(
        !out.contains("last-selected"),
        "stripped bookkeeping: {out}"
    );
    assert!(!out.contains("panel-1"), "stripped monitor key: {out}");
    // The now-empty monitors section header is gone too.
    assert!(!out.contains("monitors"), "empty section dropped: {out}");
}

#[test]
fn no_strip_is_identity_ish() {
    let dump = "[/]\nkey='v'\n";
    let out = strip_dump(dump, &[]);
    assert!(out.contains("[/]") && out.contains("key='v'"));
}

#[test]
fn parse_ids_root_keys_bare_and_nests_the_rest() {
    let m = parse_dump("[/]\na='1'\n\n[org/gnome/desktop]\nb='2'\n");
    assert_eq!(m.get(&(String::new(), "a".into())).unwrap(), "'1'");
    assert_eq!(
        m.get(&("org/gnome/desktop".into(), "b".into())).unwrap(),
        "'2'"
    );
    // The id form matches what `strip` filters on.
    assert_eq!(key_id("", "a"), "a");
    assert_eq!(key_id("org/gnome/desktop", "b"), "org/gnome/desktop/b");
}

#[test]
fn diff_reports_changed_missing_and_extra() {
    let file = "[shell]\nsame='x'\nchanged='old'\ngone='y'\n";
    let live = "[shell]\nsame='x'\nchanged='new'\nfresh='z'\n";
    let d = diff_dumps(file, live);
    // An identical key is not drift.
    assert!(!d.iter().any(|k| k.key == "same"), "{d:?}");

    let by = |k: &str| d.iter().find(|x| x.key == k).unwrap().clone();
    assert_eq!(by("changed").status(), "changed");
    // In the spec, not on the machine.
    assert_eq!(by("gone").status(), "missing");
    // On the machine, not captured.
    assert_eq!(by("fresh").status(), "extra");
    assert_eq!(by("fresh").id(), "shell/fresh");
}

#[test]
fn identical_dumps_have_no_drift() {
    let d = "[a]\nk='v'\n\n[b]\nj='w'\n";
    assert!(diff_dumps(d, d).is_empty());
}

#[test]
fn grouping_yields_one_group_per_extension() {
    // A snapshot rooted at /org/gnome/shell/extensions/ dumps one section
    // per extension — so per-extension prompts need no GNOME knowledge.
    let file = "[blur-my-shell]\nradius=30\n\n[dash-to-dock]\ndock-position='LEFT'\n";
    let live = "[blur-my-shell]\nradius=60\n\n[dash-to-dock]\ndock-position='BOTTOM'\n";
    let groups = group_by_section(&diff_dumps(file, live));
    let names: Vec<&str> = groups.iter().map(|(s, _)| s.as_str()).collect();
    assert_eq!(names, vec!["blur-my-shell", "dash-to-dock"]);
    assert!(groups.iter().all(|(_, v)| v.len() == 1));
}

#[test]
fn set_replaces_in_place_and_leaves_neighbours_alone() {
    let d = "[shell]\na='1'\nb='2'\n\n[desktop]\nc='3'\n";
    let out = dump_with_key(d, "shell", "a", "'9'");
    assert!(out.contains("a='9'"), "{out}");
    assert!(out.contains("b='2'") && out.contains("c='3'"), "{out}");
    assert_eq!(out.matches("a=").count(), 1, "no duplicate key: {out}");
}

#[test]
fn set_appends_to_an_existing_section_and_creates_a_missing_one() {
    let d = "[shell]\na='1'\n";
    let out = dump_with_key(d, "shell", "new", "'v'");
    assert!(out.contains("a='1'") && out.contains("new='v'"), "{out}");

    let out = dump_with_key(d, "desktop/interface", "clock", "'24h'");
    assert!(out.contains("[desktop/interface]"), "{out}");
    assert!(out.contains("clock='24h'"), "{out}");
    // The root section keeps dconf's own `[/]` spelling.
    assert!(dump_with_key("", "", "k", "'v'").contains("[/]"));
}

#[test]
fn remove_drops_the_key_and_any_section_it_emptied() {
    let d = "[shell]\na='1'\n\n[lonely]\nonly='x'\n";
    let out = dump_without_key(d, "lonely", "only");
    assert!(!out.contains("lonely"), "empty section dropped: {out}");
    assert!(out.contains("a='1'"), "{out}");

    let out = dump_without_key(d, "shell", "a");
    assert!(!out.contains("a='1'") && out.contains("only='x'"), "{out}");
}

#[test]
fn edits_round_trip_through_the_parser() {
    // The written file must parse back to exactly the intended state —
    // this is what keeps a reconcile absorb from re-drifting next run.
    let d = "[shell]\na='1'\n";
    let out = dump_with_key(d, "shell", "b", "'2'");
    let m = parse_dump(&out);
    assert_eq!(m.get(&("shell".into(), "b".into())).unwrap(), "'2'");
    assert_eq!(m.len(), 2);
    assert!(diff_dumps(&out, &out).is_empty());
}

#[test]
fn absorbing_every_diff_clears_the_drift() {
    // The invariant that makes reconcile trustworthy: absorb everything and
    // the next drift run is silent — no key re-offered forever.
    let file = "[shell]\nchanged='old'\ngone='y'\n";
    let live = "[shell]\nchanged='new'\nfresh='z'\n";
    let out = absorbed(file, &diff_dumps(file, live));
    assert!(
        diff_dumps(&out, live).is_empty(),
        "absorbed file still drifts: {out}"
    );
}

#[test]
fn absorbing_a_subset_leaves_exactly_the_rest() {
    let file = "[shell]\na='1'\nb='2'\n";
    let live = "[shell]\na='9'\nb='8'\n";
    let diffs = diff_dumps(file, live);
    let only_a: Vec<KeyDiff> = diffs.iter().filter(|d| d.key == "a").cloned().collect();
    let out = absorbed(file, &only_a);
    let rest = diff_dumps(&out, live);
    assert_eq!(rest.len(), 1);
    assert_eq!(rest[0].key, "b");
}

#[test]
fn stripped_keys_never_read_as_drift() {
    // The churn key differs on both sides but is filtered out of each.
    let strip = vec!["last-selected".to_string()];
    let file = strip_dump("[/]\nk='v'\nlast-selected='a'\n", &strip);
    let live = strip_dump("[/]\nk='v'\nlast-selected='b'\n", &strip);
    assert!(diff_dumps(&file, &live).is_empty());
}


/// The members of a GVariant string array such as `['a@x', 'b@y']` (the
/// shape these tests use), standing in for the parse the caller supplies.
fn members(v: &str) -> Vec<String> {
    v.trim_matches(|c| c == '[' || c == ']')
        .split(',')
        .map(|m| m.trim().trim_matches('\'').to_string())
        .filter(|m| !m.is_empty())
        .collect()
}

#[test]
fn describe_renders_a_list_valued_key_as_a_member_delta() {
    let d = KeyDiff {
        section: String::new(),
        key: "enabled-extensions".into(),
        file: Some("['a@x', 'b@y']".into()),
        live: Some("['a@x', 'c@z']".into()),
    };
    let s = describe(&d, Some((members("['a@x', 'b@y']"), members("['a@x', 'c@z']"))));
    assert!(s.starts_with("+1 −1"), "{s}");
    assert!(s.contains("+c@z") && s.contains("−b@y"), "{s}");
    let d = KeyDiff { section: "i".into(), key: "clock".into(), file: Some("'12h'".into()), live: Some("'24h'".into()) };
    assert_eq!(describe(&d, None), "'12h' → '24h'");
}

#[test]
fn describe_names_one_sided_and_reordered_changes() {
    let d = KeyDiff { section: "s".into(), key: "k".into(), file: None, live: Some("'v'".into()) };
    assert_eq!(describe(&d, None), "live: 'v'");
    let d = KeyDiff { section: "s".into(), key: "k".into(), file: Some("'v'".into()), live: None };
    assert_eq!(describe(&d, None), "captured: 'v' (machine no longer sets it)");
    let d = KeyDiff { section: "s".into(), key: "k".into(), file: Some("['a', 'b']".into()), live: Some("['b', 'a']".into()) };
    assert_eq!(describe(&d, Some((members("['a', 'b']"), members("['b', 'a']")))), "reordered");
    let long = "x".repeat(60);
    let d = KeyDiff { section: "s".into(), key: "k".into(), file: None, live: Some(long) };
    let s = describe(&d, None);
    assert_eq!(s.chars().count(), "live: ".len() + 44);
    assert!(s.ends_with('…'));
}

#[test]
fn stripping_drops_exactly_the_stripped_keys() {
    let d = "[a]\nkeep='1'\nlast-selected='x'\n\n[b]\nlast-selected='y'\n\n[c/d]\nother='2'\n";
    let strip = vec!["last-selected".to_string()];
    let out = strip_dump(d, &strip);
    let before = parse_dump(d);
    let after = parse_dump(&out);
    assert_eq!(after.len(), 2);
    for k in [("a", "keep"), ("c/d", "other")] {
        let key = (k.0.to_string(), k.1.to_string());
        assert_eq!(after.get(&key), before.get(&key));
    }
    assert_eq!(after.get(&("a".to_string(), "last-selected".to_string())), None);
    // The section left empty is gone with its header.
    assert!(!out.contains("[b]"), "{out}");
}

#[test]
fn strip_leaves_no_header_without_a_key() {
    let dump = "[a]\nx=1\n\n[b]\nsecret=2\n\n[c]\ny=3\n";
    let out = strip_dump(dump, &["secret".into()]);
    let lines: Vec<&str> = out.lines().collect();
    for (i, l) in lines.iter().enumerate() {
        if l.starts_with('[') {
            assert!(i + 1 < lines.len() && !lines[i + 1].trim().is_empty(), "empty section in:\n{out}");
        }
    }
    assert!(!out.contains("[b]"));
}

#[test]
fn sorted_diffs_group_under_distinct_names() {
    let file = "[a]\nk=1\nm=1\n\n[b]\nk=1\n\n[c]\nk=1\n";
    let live = "[a]\nk=2\nm=2\n\n[b]\nk=2\n\n[c]\nk=2\n";
    let groups = group_by_section(&diff_dumps(file, live));
    let names: Vec<&str> = groups.iter().map(|g| g.0.as_str()).collect();
    assert_eq!(names, vec!["a", "b", "c"]);
    assert_eq!(groups[0].1.len(), 2);
}
