use actiontui::model::{Badge, RepoResult, WorkflowRow};
use actiontui::notify::{notice_for, notice_script, Notice};
use actiontui::state::{Change, Outcome, State, Transition};

fn st(x: &str) -> String {
    x.to_string()
}

fn wrow(name: &str, badge: Badge) -> WorkflowRow {
    WorkflowRow {
        workflow_name: st(name),
        badge,
        started_at: None,
        finished_at: None,
        eta_total_secs: None,
        head_sha: None,
        run_id: 1,
        recent: Vec::new(),
        fail_since_sha: None,
    }
}

fn result(repo: &str, rows: Vec<WorkflowRow>) -> Vec<RepoResult> {
    vec![RepoResult { repo: st(repo), rows, error: None }]
}

#[test]
fn first_refresh_never_notifies() {
    let s = State::new();
    let r = result("o/r", vec![wrow("ci", Badge::Fail), wrow("lint", Badge::Pass)]);
    assert!(s.diff(&r).is_empty());
}

#[test]
fn pass_to_fail_and_back() {
    let mut s = State::new();
    let green = result("o/r", vec![wrow("ci", Badge::Pass), wrow("lint", Badge::Pass)]);
    s.commit(&green);
    assert!(s.diff(&green).is_empty());

    let red = result("o/r", vec![wrow("ci", Badge::Fail), wrow("lint", Badge::Running)]);
    let ts = s.diff(&red);
    assert_eq!(ts.len(), 1);
    assert_eq!(ts[0].repo, "o/r");
    assert_eq!(ts[0].workflow, "ci");
    assert_eq!(ts[0].change, Change::Broke);
    s.commit(&red);
    assert_eq!(s.outcome("o/r", "ci"), Some(Outcome::Fail));
    assert_eq!(s.outcome("o/r", "lint"), Some(Outcome::Pass));
    assert!(s.diff(&red).is_empty());

    let back = result("o/r", vec![wrow("ci", Badge::Pass)]);
    let ts = s.diff(&back);
    assert_eq!(ts.len(), 1);
    assert_eq!(ts[0].change, Change::Recovered);
}

#[test]
fn failed_fetches_are_not_observed() {
    let mut s = State::new();
    s.commit(&result("o/r", vec![wrow("ci", Badge::Pass)]));
    let broken = vec![RepoResult { repo: st("o/r"), rows: vec![wrow("ci", Badge::Fail)], error: Some(st("x")) }];
    assert!(s.diff(&broken).is_empty());
    s.commit(&broken);
    assert_eq!(s.outcome("o/r", "ci"), Some(Outcome::Pass));
}

#[test]
fn record_then_read() {
    let mut s = State::new();
    assert_eq!(s.outcome("a/b", "w"), None);
    s.record(&st("a/b"), &st("w"), Outcome::Fail);
    s.record(&st("a/b"), &st("v"), Outcome::Pass);
    s.record(&st("a/b"), &st("w"), Outcome::Pass);
    assert_eq!(s.outcome("a/b", "w"), Some(Outcome::Pass));
    assert_eq!(s.outcome("a/b", "v"), Some(Outcome::Pass));
    assert_eq!(s.outcome("c/d", "w"), None);
    assert_eq!(s.entries.len(), 2);
}

#[test]
fn notices_for_transitions() {
    let broke = Transition { repo: st("o/r"), workflow: st("ci"), change: Change::Broke };
    let n = notice_for(&broke, "main", true);
    assert_eq!(n.title, "✗ ci failed");
    assert_eq!(n.body, "o/r (main)");
    assert_eq!(n.sound, Some(st("Basso")));
    let fixed = Transition { repo: st("o/r"), workflow: st("ci"), change: Change::Recovered };
    let m = notice_for(&fixed, "dev", false);
    assert_eq!(m.title, "✓ ci recovered");
    assert_eq!(m.body, "o/r (dev)");
    assert_eq!(m.sound, None);
    assert_eq!(notice_for(&fixed, "dev", true).sound, Some(st("Glass")));
}

#[test]
fn applescript_for_a_notice() {
    let n = Notice { title: st("✗ ci \"main\" failed"), body: st("o/r (a\\b)"), sound: Some(st("Basso")) };
    assert_eq!(
        notice_script(&n),
        "display notification \"o/r (a\\\\b)\" with title \"✗ ci \\\"main\\\" failed\" sound name \"Basso\""
    );
    let quiet = Notice { title: st("t"), body: st("b"), sound: None };
    assert_eq!(notice_script(&quiet), "display notification \"b\" with title \"t\"");
}
