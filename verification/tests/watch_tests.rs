use actiontui::model::{Badge, RepoResult, WorkflowRow};
use actiontui::state::{Change, State};
use actiontui::watch::{App, Key, KeyCode, MAX_WATCH_SECS};

fn st(x: &str) -> String {
    x.to_string()
}

fn wrow(name: &str, badge: Badge, run_id: u64, sha: Option<&str>) -> WorkflowRow {
    WorkflowRow {
        workflow_name: st(name),
        badge,
        started_at: None,
        finished_at: None,
        eta_total_secs: None,
        head_sha: sha.map(st),
        run_id,
        recent: Vec::new(),
        fail_since_sha: None,
    }
}

fn results(badge: Badge) -> Vec<RepoResult> {
    vec![
        RepoResult { repo: st("o/a"), rows: vec![wrow("ci", badge, 11, Some("0123456789abc"))], error: None },
        RepoResult { repo: st("o/b"), rows: vec![wrow("lint", Badge::Pass, 22, None)], error: None },
    ]
}

fn key(c: KeyCode) -> Key {
    Key { code: c, ctrl: false }
}

fn app() -> App {
    App::new(vec![st("o/a"), st("o/b")], st("main"), false, true, Vec::new(), 1, State::new())
}

#[test]
fn interval_has_a_floor() {
    assert_eq!(app().interval_secs, 5);
    let a = App::new(Vec::new(), st("main"), false, true, Vec::new(), 60, State::new());
    assert_eq!(a.interval_secs, 60);
}

#[test]
fn ticks_refresh_and_expire() {
    let mut a = app();
    let s = a.on_tick(4, 4);
    assert!(!s.refresh && !s.quit);
    let s = a.on_tick(5, 5);
    assert!(s.refresh);
    assert!(a.loading);
    let s = a.on_tick(50, 50);
    assert!(!s.refresh);
    assert_eq!(a.spinner, 1);
    let s = a.on_tick(0, MAX_WATCH_SECS);
    assert!(s.quit);
}

#[test]
fn apply_announces_and_clamps() {
    let mut a = app();
    a.selected = 7;
    let s = a.apply(results(Badge::Pass));
    assert!(s.refreshed);
    assert!(s.announce.is_empty());
    assert_eq!(a.selected, 1);
    let s = a.apply(results(Badge::Fail));
    assert_eq!(s.announce.len(), 1);
    assert_eq!(s.announce[0].workflow, "ci");
    assert_eq!(s.announce[0].change, Change::Broke);
    let s = a.apply(Vec::new());
    assert!(s.announce.is_empty());
    assert_eq!(a.selected, 0);
}

#[test]
fn keys_move_open_and_quit() {
    let mut a = app();
    a.apply(results(Badge::Pass));
    a.on_key(key(KeyCode::Down));
    assert_eq!(a.selected, 1);
    a.on_key(key(KeyCode::Char('j')));
    assert_eq!(a.selected, 1);
    a.on_key(key(KeyCode::Char('k')));
    assert_eq!(a.selected, 0);
    a.on_key(key(KeyCode::Up));
    assert_eq!(a.selected, 0);

    let s = a.on_key(key(KeyCode::Char('o')));
    assert_eq!(s.open_url, Some(st("https://github.com/o/a/commit/0123456789abc")));
    assert_eq!(a.status, Some(st("opened commit 0123456")));
    a.on_key(key(KeyCode::Down));
    let s = a.on_key(key(KeyCode::Char('o')));
    assert_eq!(s.open_url, None);
    assert_eq!(a.status, Some(st("no commit for that row")));

    let s = a.on_key(key(KeyCode::Char('t')));
    assert!(s.test_notification);
    let s = a.on_key(key(KeyCode::Char('r')));
    assert!(s.refresh);
    let s = a.on_key(key(KeyCode::Char('R')));
    assert!(!s.refresh);
    assert!(a.on_key(key(KeyCode::Char('q'))).quit);
    assert!(a.on_key(key(KeyCode::Esc)).quit);
    assert!(a.on_key(Key { code: KeyCode::Char('c'), ctrl: true }).quit);
    assert!(!a.on_key(key(KeyCode::Char('c'))).quit);
}

#[test]
fn rerun_needs_confirmation() {
    let mut a = app();
    a.apply(results(Badge::Fail));
    a.on_key(key(KeyCode::Enter));
    let c = a.confirm.as_ref().unwrap();
    assert_eq!((c.repo.as_str(), c.run_id, c.workflow.as_str()), ("o/a", 11, "ci"));
    let prompt = a.prompt_line().unwrap();
    let text: String = prompt.spans.iter().map(|s| s.content.as_str()).collect();
    assert_eq!(text, "  Re-run “ci” in o/a ?   y = yes · n = no");

    let s = a.on_key(key(KeyCode::Char('n')));
    assert_eq!(s.rerun, None);
    assert!(a.confirm.is_none());
    assert_eq!(a.status, Some(st("re-run cancelled")));

    a.on_key(key(KeyCode::Char('x')));
    let s = a.on_key(key(KeyCode::Char('y')));
    assert_eq!(s.rerun, Some((st("o/a"), 11)));
    let s = a.on_rerun_done(Ok(()));
    assert!(s.refresh);
    assert_eq!(a.status, Some(st("⟳ re-run triggered — ci (o/a)")));
    assert!(a.rerunning.is_none());

    a.loading = false;
    a.on_key(key(KeyCode::Enter));
    a.on_key(key(KeyCode::Char('Y')));
    let s = a.on_rerun_done(Err(st("HTTP 403")));
    assert!(!s.refresh);
    assert_eq!(a.status, Some(st("✗ re-run failed: HTTP 403")));
}

#[test]
fn frame_counts_down() {
    let mut a = app();
    a.apply(results(Badge::Pass));
    let f = a.frame(1000, 3);
    let w = f.watch.as_ref().unwrap();
    assert_eq!(w.interval, 5);
    assert_eq!(w.remaining, 2);
    assert!(f.prompt.is_none());
    assert_eq!(a.frame(1000, 9).watch.as_ref().unwrap().remaining, -4);
}
