use temper::git::{
    changed_paths, commit_failure, message_from_changes, pull, push_outcome, reason, reason_text, save_report, save_start,
    status_line, GitRun, Pull,
};

fn run(ok: bool, stderr: &str) -> Option<GitRun> {
    Some(GitRun { ok, stderr: stderr.as_bytes().to_vec() })
}

#[test]
fn reason_takes_last_nonempty_line() {
    assert_eq!(reason(b"fatal: no upstream\n\n"), "fatal: no upstream");
    assert_eq!(reason(b"line one\nline two\n"), "line two");
    assert_eq!(reason(b"   \n\n"), "failed");
}

#[test]
fn reason_text_trims_the_line_it_picks() {
    assert_eq!(reason_text("  first\n  last  \r\n"), "last");
    assert_eq!(reason_text(""), "failed");
}

#[test]
fn porcelain_paths_drop_the_status_prefix() {
    let out = " M apps/zsh.toml\n?? new file.txt\nA\n\n R  \n";
    assert_eq!(changed_paths(out), vec!["apps/zsh.toml", "new file.txt"]);
}

#[test]
fn save_messages_name_the_first_three_paths() {
    assert_eq!(message_from_changes(&[]), "temper: save spec");
    let two = vec!["a".to_string(), "b".to_string()];
    assert_eq!(message_from_changes(&two), "spec update: a, b");
    let five: Vec<String> = ["a", "b", "c", "d", "e"].iter().map(|s| s.to_string()).collect();
    assert_eq!(message_from_changes(&five), "spec update: a, b, c (+2 more)");
}

#[test]
fn status_line_reads_branch_counts_and_dirt() {
    assert_eq!(status_line(Some("main\n"), Some("2\t5\n"), true), "main (↓2 ↑5) — dirty");
    assert_eq!(status_line(None, None, false), "? (no upstream) — clean");
    assert_eq!(status_line(Some("dev"), Some("x"), false), "dev (↓0 ↑0) — clean");
}

#[test]
fn a_pull_reports_what_moved() {
    let h = |s: &str| Some(s.to_string());
    assert_eq!(pull(false, None, None, None, None), Pull::NotRepo);
    assert_eq!(pull(true, h("a"), None, h("a"), None), Pull::Warn("could not run git".into()));
    assert_eq!(
        pull(true, h("a"), run(false, "error: diverged\n"), h("a"), None),
        Pull::Warn("error: diverged".into())
    );
    assert_eq!(pull(true, h("a"), run(true, ""), h("a"), None), Pull::UpToDate);
    assert_eq!(pull(true, h("a"), run(true, ""), h("b"), h("3\n")), Pull::Updated(3));
    assert_eq!(pull(true, h("a"), run(true, ""), h("b"), None), Pull::Updated(1));
    assert_eq!(pull(true, None, run(true, ""), h("b"), None), Pull::UpToDate);
}

#[test]
fn a_push_counts_only_when_the_remote_moved() {
    let h = |s: &str| Some(s.to_string());
    assert_eq!(push_outcome(h("a"), run(true, ""), h("a")), (false, None));
    assert_eq!(push_outcome(h("a"), run(true, ""), h("b")), (true, None));
    assert_eq!(push_outcome(None, run(true, ""), h("b")), (true, None));
    assert_eq!(
        push_outcome(h("a"), run(false, "rejected\n"), h("a")),
        (false, Some("push failed: rejected".to_string()))
    );
    assert_eq!(push_outcome(None, None, None), (false, Some("could not run git push".to_string())));
}

#[test]
fn save_reports_compose_their_warnings() {
    let r = save_report(false, "m", None);
    assert!(!r.committed && !r.pushed && r.warning.is_none());
    assert_eq!(r.message, "m");
    let r = save_report(false, "m", Some((Pull::Warn("offline".into()), (false, Some("push failed: x".into())))));
    assert_eq!(r.warning.as_deref(), Some("offline"));
    let r = save_report(true, "m", Some((Pull::UpToDate, (false, Some("push failed: x".into())))));
    assert_eq!(r.warning.as_deref(), Some("committed, but push failed: x"));
    let r = save_report(true, "m", Some((Pull::Updated(2), (true, None))));
    assert!(r.committed && r.pushed && r.warning.is_none());
}

#[test]
fn a_repo_needs_git_and_a_work_tree_and_dirt_needs_output() {
    assert!(temper::git::is_repo(true, true));
    assert!(!temper::git::is_repo(false, true));
    assert!(!temper::git::is_repo(true, false));
    assert!(temper::git::is_dirty(Some(true), b" M temper.toml\n"));
    assert!(!temper::git::is_dirty(Some(true), b""));
    assert!(!temper::git::is_dirty(Some(false), b"fatal"));
    assert!(!temper::git::is_dirty(None, b""));
}

#[test]
fn save_outside_a_work_tree_is_refused() {
    assert_eq!(save_start("/tmp/empty", false, false), Err("/tmp/empty is not a git repo \u{2014} nothing to save".to_string()));
    assert_eq!(save_start("/tmp/empty", false, true).is_err(), true);
}

#[test]
fn save_commits_only_when_dirty() {
    assert_eq!(save_start("/h", true, true), Ok(true));
    assert_eq!(save_start("/h", true, false), Ok(false));
}

#[test]
fn commit_failure_names_the_step_that_failed() {
    assert_eq!(commit_failure("/h", false, false, b""), Some("git add failed in /h".to_string()));
    assert_eq!(
        commit_failure("/h", true, false, b"hint\nerror: nothing to commit\n"),
        Some("git commit failed: error: nothing to commit".to_string())
    );
    assert_eq!(commit_failure("/h", true, true, b"x"), None);
}
