use temper::discovery::{dedup_candidates, join, pointer_in, scan_candidates_in, scan_roots, scan_verdict, ScanVerdict};

fn strings(items: &[&str]) -> Vec<String> {
    items.iter().map(|s| s.to_string()).collect()
}

#[test]
fn scan_finds_lowercase_developer_and_other_dev_parents() {
    let roots = scan_roots("/h", &[], "me");
    let cands = scan_candidates_in(&roots);
    for parent in ["developer", "Developer", "dev", "src", "code", "projects"] {
        let want = format!("/h/{parent}/steel");
        assert!(cands.contains(&want), "scan misses {want}");
    }
}

#[test]
fn scan_finds_cloud_sync_locations() {
    let roots = scan_roots("/h", &strings(&["/h/Library/CloudStorage/OneDrive-Personal"]), "me");
    let cands = scan_candidates_in(&roots);
    for want in [
        "/h/OneDrive/steel",
        "/h/Proton Drive/steel",
        "/h/Nextcloud/temper-home",
        "/h/Library/Mobile Documents/com~apple~CloudDocs/steel",
        "/h/Library/CloudStorage/OneDrive-Personal/steel",
        "/media/steel",
        "/run/media/me/.temper",
    ] {
        assert!(cands.contains(&want.to_string()), "scan misses {want}");
    }
    assert_eq!(roots[0], "/h");
    assert_eq!(roots.len(), 1 + 10 + 1 + 1 + 7 + 2);
    assert_eq!(cands.len(), roots.len() * 3);
}

#[test]
fn scan_finds_home_and_alt_repo_names() {
    let cands = scan_candidates_in(&strings(&["/h", "/h/developer", "/h/dev"]));
    assert_eq!(&cands[0..3], &strings(&["/h/steel", "/h/temper-home", "/h/.temper"])[..]);
    let found = dedup_candidates(vec![
        ("/h/steel".into(), "/h/steel".into()),
        ("/h/developer/temper-home".into(), "/h/developer/temper-home".into()),
        ("/h/dev/.temper".into(), "/h/dev/.temper".into()),
    ]);
    assert_eq!(found.len(), 3, "expected all three, got {found:?}");
}

#[test]
fn scan_dedups_aliased_roots() {
    let found = dedup_candidates(vec![
        ("/h/Developer/steel".into(), "/h/Developer/steel".into()),
        ("/h/developer/steel".into(), "/h/Developer/steel".into()),
    ]);
    assert_eq!(found, strings(&["/h/Developer/steel"]), "aliased roots must dedup to one");
}

#[test]
fn one_candidate_is_used_and_several_are_refused() {
    assert_eq!(scan_verdict(Vec::new()), ScanVerdict::NoneFound);
    assert_eq!(scan_verdict(strings(&["/h/steel"])), ScanVerdict::Found("/h/steel".into()));
    assert_eq!(scan_verdict(strings(&["/a", "/b"])), ScanVerdict::Several(strings(&["/a", "/b"])));
    assert_eq!(pointer_in("/h/.config"), "/h/.config/temper/home");
    assert_eq!(join("/h/", "x"), "/h/x");
    assert_eq!(join("/h", "/abs"), "/abs");
}
