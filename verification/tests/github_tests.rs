use actiontui::github::{
    active_ids, active_or_all, derive_rows, estimate_duration, fail_since_sha, recent_dots, repo_result, rerun_error,
    rerun_route, runs_route, runs_well_formed, choose_token, token_from, token_from_env, urlencode, workflows_route, ApiRun,
    ApiWorkflow,
};
use actiontui::model::{any_fetch_failed, Badge, Dot, RepoResult};

fn s(x: &str) -> String {
    x.to_string()
}

fn run(
    id: u64,
    name: &str,
    wf: u64,
    status: &str,
    conclusion: Option<&str>,
    sha: &str,
    start: i64,
    updated: i64,
) -> ApiRun {
    ApiRun {
        id,
        name: Some(s(name)),
        workflow_id: wf,
        status: Some(s(status)),
        conclusion: conclusion.map(s),
        head_sha: s(sha),
        run_started_at: Some(start),
        created_at: start,
        updated_at: updated,
    }
}

fn page() -> Vec<ApiRun> {
    vec![
        run(1, "Backend CI", 10, "completed", Some("failure"), "aaaaaaaaaa", 1000, 1600),
        run(7, "api contracts", 20, "in_progress", None, "cccccccccc", 3000, 3100),
        run(2, "Backend CI", 10, "completed", Some("failure"), "bbbbbbbbbb", 2000, 2500),
        run(4, "Update #1", 30, "completed", Some("success"), "dddddddddd", 100, 200),
        run(3, "Backend CI", 10, "completed", Some("success"), "eeeeeeeeee", 500, 800),
        run(9, "Old job", 40, "completed", Some("success"), "ffffffffff", 50, 60),
    ]
}

#[test]
fn rows_one_per_workflow_sorted_and_filtered() {
    let active = vec![10u64, 20, 30];
    let exclude = vec![s("UPDATE #")];
    let rows = derive_rows(&page(), &active, &exclude);
    assert_eq!(rows.len(), 2);
    assert_eq!(rows[0].workflow_name, "api contracts");
    assert_eq!(rows[1].workflow_name, "Backend CI");

    let ci = &rows[1];
    assert_eq!(ci.badge, Badge::Fail);
    assert_eq!(ci.run_id, 2);
    assert_eq!(ci.started_at, Some(2000));
    assert_eq!(ci.finished_at, Some(2500));
    assert_eq!(ci.eta_total_secs, Some(300));
    assert_eq!(ci.head_sha, Some(s("bbbbbbbbbb")));
    assert_eq!(ci.recent, vec![Dot::Fail, Dot::Fail, Dot::Pass]);
    assert_eq!(ci.fail_since_sha, Some(s("aaaaaaaaaa")));

    let api = &rows[0];
    assert_eq!(api.badge, Badge::Running);
    assert_eq!(api.finished_at, None);
    assert_eq!(api.eta_total_secs, None);
    assert_eq!(api.recent, vec![Dot::Active]);
    assert_eq!(api.fail_since_sha, None);
}

#[test]
fn no_active_list_keeps_every_workflow() {
    let rows = derive_rows(&page(), &Vec::new(), &Vec::new());
    let names: Vec<String> = rows.iter().map(|r| r.workflow_name.clone()).collect();
    assert_eq!(names, vec![s("api contracts"), s("Backend CI"), s("Old job"), s("Update #1")]);
}

#[test]
fn recent_history_keeps_six_newest() {
    let group: Vec<ApiRun> = (0..8)
        .map(|i| run(i, "w", 1, "completed", Some(if i % 2 == 0 { "success" } else { "failure" }), "x", 100 - i as i64, 200))
        .collect();
    let dots = recent_dots(&group);
    assert_eq!(dots.len(), 6);
    assert_eq!(dots[0], Dot::Pass);
    assert_eq!(dots[1], Dot::Fail);
}

#[test]
fn eta_from_latest_success_never_negative() {
    let group = vec![
        run(1, "w", 1, "completed", Some("failure"), "a", 100, 150),
        run(2, "w", 1, "completed", Some("success"), "b", 90, 80),
    ];
    assert_eq!(estimate_duration(&group), Some(0));
    let none = vec![run(1, "w", 1, "completed", Some("failure"), "a", 100, 150)];
    assert_eq!(estimate_duration(&none), None);
}

#[test]
fn fail_since_needs_a_failing_latest_run() {
    let green = vec![run(1, "w", 1, "completed", Some("success"), "a", 100, 150)];
    assert_eq!(fail_since_sha(&green), None);
    let red = vec![
        run(1, "w", 1, "completed", Some("timed_out"), "new", 100, 150),
        run(2, "w", 1, "completed", Some("failure"), "old", 90, 95),
        run(3, "w", 1, "completed", Some("success"), "good", 80, 85),
    ];
    assert_eq!(fail_since_sha(&red), Some(s("old")));
}

#[test]
fn active_workflow_ids_in_order() {
    let wfs = vec![
        ApiWorkflow { id: 3, state: s("active") },
        ApiWorkflow { id: 5, state: s("disabled_manually") },
        ApiWorkflow { id: 1, state: s("active") },
    ];
    assert_eq!(active_ids(&wfs), vec![3, 1]);
    assert_eq!(active_or_all(Ok(wfs)), vec![3, 1]);
    assert!(active_or_all(Err(s("HTTP 403"))).is_empty());
}

#[test]
fn repo_result_carries_rows_or_error() {
    let ok = repo_result("o/r", Ok(page()), &vec![10], &Vec::new());
    assert_eq!(ok.repo, "o/r");
    assert_eq!(ok.error, None);
    assert_eq!(ok.rows.len(), 1);
    let err = repo_result("o/r", Err(s("HTTP 404")), &Vec::new(), &Vec::new());
    assert_eq!(err.error, Some(s("fetching runs for o/r: HTTP 404")));
    assert!(err.rows.is_empty());
    let mut bad = page();
    bad[0].updated_at = i64::MAX;
    assert!(!runs_well_formed(&bad));
    let bad_res = repo_result("o/r", Ok(bad), &Vec::new(), &Vec::new());
    assert_eq!(bad_res.error, Some(s("run timestamps out of range")));
    let results: Vec<RepoResult> = vec![ok, err];
    assert!(any_fetch_failed(&results));
}

#[test]
fn urlencode_keeps_unreserved_bytes() {
    assert_eq!(urlencode("feature/x y#"), "feature%2Fx%20y%23");
    assert_eq!(urlencode("main"), "main");
    assert_eq!(urlencode("a-b_c.d~e"), "a-b_c.d~e");
    assert_eq!(urlencode("é"), "%C3%A9");
    assert_eq!(urlencode(""), "");
}

#[test]
fn routes() {
    assert_eq!(runs_route("o/r", "dev/x"), "/repos/o/r/actions/runs?branch=dev%2Fx&per_page=100");
    assert_eq!(workflows_route("o/r"), "/repos/o/r/actions/workflows?per_page=100");
    assert_eq!(rerun_route("o/r", 42), "repos/o/r/actions/runs/42/rerun");
}

#[test]
fn tokens_are_trimmed() {
    assert_eq!(token_from("  ghp_abc\n"), Some(s("ghp_abc")));
    assert_eq!(token_from(" \n\t"), None);
    assert_eq!(token_from(""), None);
}

#[test]
fn rerun_error_first_nonblank_line() {
    assert_eq!(rerun_error("\n  HTTP 403: forbidden  \nmore\n"), "HTTP 403: forbidden");
    assert_eq!(rerun_error("   \n\n"), "gh api failed");
    assert_eq!(rerun_error(""), "gh api failed");
    assert_eq!(rerun_error("last line without newline"), "last line without newline");
}

#[test]
fn environment_tokens_in_order() {
    assert_eq!(token_from_env(Some(" a "), Some("b")), Some(s("a")));
    assert_eq!(token_from_env(Some("  "), Some("b\n")), Some(s("b")));
    assert_eq!(token_from_env(None, None), None);
    assert_eq!(token_from_env(None, Some("")), None);
}

#[test]
fn gh_token_comes_first() {
    assert_eq!(choose_token(Some("gho_x\n"), Some("env"), None), Some(s("gho_x")));
    assert_eq!(choose_token(Some(" \n"), Some("env"), Some("b")), Some(s("env")));
    assert_eq!(choose_token(None, None, Some("b")), Some(s("b")));
    assert_eq!(choose_token(None, None, None), None);
}
