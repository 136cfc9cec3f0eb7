use actiontui::model::{Badge, Dot, RepoResult, WorkflowRow};
use actiontui::ui::{
    border_exec, column_widths, commit_url, data_row_exec, fmt_duration, fmt_time, header_row_exec,
    lines_to_ansi, render_lines, sanitize, spinner_frame, truncate, Color, Frame, Line, RowTimes, Span,
    Style, TimeTexts, WatchInfo,
};

fn text(l: &Line) -> String {
    l.spans.iter().map(|s| s.content.as_str()).collect()
}

fn st(x: &str) -> String {
    x.to_string()
}

fn row(name: &str, badge: Badge) -> WorkflowRow {
    WorkflowRow {
        workflow_name: st(name),
        badge,
        started_at: Some(1000),
        finished_at: Some(1130),
        eta_total_secs: Some(120),
        head_sha: Some(st("0123456789")),
        run_id: 5,
        recent: vec![Dot::Fail, Dot::Pass],
        fail_since_sha: Some(st("abcdef123456")),
    }
}

#[test]
fn durations() {
    assert_eq!(fmt_duration(0), "0s");
    assert_eq!(fmt_duration(59), "59s");
    assert_eq!(fmt_duration(60), "1m 0s");
    assert_eq!(fmt_duration(190), "3m 10s");
    assert_eq!(fmt_duration(3599), "59m 59s");
    assert_eq!(fmt_duration(3600), "1h 0m");
    assert_eq!(fmt_duration(7500), "2h 5m");
    assert_eq!(fmt_duration(-5), "0s");
}

#[test]
fn truncation_and_dashes() {
    assert_eq!(truncate("hello", 10), "hello");
    assert_eq!(truncate("hello", 5), "hello");
    assert_eq!(truncate("hello world", 5), "hell…");
    assert_eq!(truncate("a—b–c", 9), "a-b-c");
    assert_eq!(truncate("abc", 0), "");
    assert_eq!(sanitize("x — y"), "x - y");
}

#[test]
fn widths_of_columns() {
    assert_eq!(column_widths(20), vec![20, 9, 14, 14, 9, 9, 13, 11]);
}

#[test]
fn borders() {
    let b = border_exec(&vec![1, 2], '┌', '┬', '┐');
    assert_eq!(text(&b), "┌───┬────┐");
    assert_eq!(b.spans[0].style, Style { fg: Some(Color::DarkGray), bold: false, dim: false });
    assert_eq!(text(&border_exec(&Vec::new(), '└', '┴', '┘')), "└┘");
}

#[test]
fn header_row_pads_every_title() {
    let h = header_row_exec(8, "Workflow");
    let expected = format!(
        "│ {:<8} │ {:<9} │ {:<14} │ {:<14} │ {:<9} │ {:<9} │ {:<13} │ {:<11} │",
        "Workflow", "Status", "Started", "Finished", "Duration", "ETA", "Recent", "FailSince"
    );
    assert_eq!(text(&h), expected);
}

#[test]
fn data_row_of_a_failing_workflow() {
    let r = row("Backend — CI", Badge::Fail);
    let l = data_row_exec("Backend — CI", &r, 5000, 0, 12, "01-01 00:16:40", "01-01 00:18:50");
    let expected = format!(
        "│ {:<12} │ {:<9} │ {:<14} │ {:<14} │ {:<9} │ {:<9} │ {:<13} │ {:<11} │",
        "Backend - CI", "FAIL", "01-01 00:16:40", "01-01 00:18:50", "2m 10s", "--", "● ●", "abcdef1"
    );
    assert_eq!(text(&l), expected);
}

#[test]
fn data_row_of_a_running_workflow_shows_eta() {
    let mut r = row("deploy", Badge::Running);
    r.finished_at = None;
    r.recent = vec![Dot::Active];
    r.fail_since_sha = None;
    let l = data_row_exec("deploy", &r, 1100, 11, 8, "t0", "--");
    let expected = format!(
        "│ {:<8} │ {:<9} │ {:<14} │ {:<14} │ {:<9} │ {:<9} │ {:<13} │ {:<11} │",
        "deploy", "⠙ running", "t0", "--", "1m 40s", "~20s", "◐", "--"
    );
    assert_eq!(text(&l), expected);
    let over = data_row_exec("deploy", &r, 1200, 0, 8, "t0", "--");
    assert!(text(&over).contains("+1m 20s"));
}

#[test]
fn spinner_cycles() {
    assert_eq!(spinner_frame(0), '⠋');
    assert_eq!(spinner_frame(11), '⠙');
    assert_eq!(spinner_frame(9), '⠏');
}

#[test]
fn ansi_output() {
    let l = Line {
        spans: vec![
            Span { content: st("  "), style: Style { fg: None, bold: false, dim: false } },
            Span { content: st("x"), style: Style { fg: Some(Color::Cyan), bold: true, dim: false } },
        ],
    };
    let g = Line { spans: vec![Span { content: st("y"), style: Style { fg: Some(Color::DarkGray), bold: false, dim: true } }] };
    assert_eq!(lines_to_ansi(&vec![l, g]), "  \x1b[1;36mx\x1b[0m\n\x1b[2;90my\x1b[0m\n");
    assert_eq!(lines_to_ansi(&Vec::new()), "");
}

#[test]
fn frame_with_a_failed_repo() {
    let results = vec![RepoResult { repo: st("o/r"), rows: Vec::new(), error: Some(st("HTTP 500")) }];
    let f = Frame {
        results: &results,
        aggregate: false,
        branch: "main",
        now: 0,
        watch: Some(WatchInfo { interval: 30, remaining: 12 }),
        spinner: 0,
        loading: false,
        prompt: None,
    };
    let t = TimeTexts { now: st("2024-01-01 00:00:00"), rows: vec![Vec::new()] };
    let lines = render_lines(&f, &t);
    let texts: Vec<String> = lines.iter().map(text).collect();
    assert_eq!(
        texts,
        vec![
            st(""),
            st("  GitHub Actions  2024-01-01 00:00:00  ⟳ every 30s · next in 12s   r refresh · q quit"),
            st(""),
            st("  o/r (main)"),
            st("  ✗ HTTP 500"),
            st(""),
        ]
    );
}

#[test]
fn frame_with_rows_and_aggregate() {
    let results = vec![
        RepoResult { repo: st("org/alpha"), rows: vec![row("ci", Badge::Pass)], error: None },
        RepoResult { repo: st("org/beta"), rows: Vec::new(), error: Some(st("boom")) },
    ];
    let times = vec![
        vec![RowTimes { started: st("s"), finished: st("f") }],
        Vec::new(),
    ];
    let t = TimeTexts { now: st("now"), rows: times };
    let mut f = Frame {
        results: &results,
        aggregate: false,
        branch: "dev",
        now: 2000,
        watch: None,
        spinner: 0,
        loading: true,
        prompt: None,
    };
    let lines: Vec<String> = render_lines(&f, &t).iter().map(text).collect();
    assert_eq!(lines[1], "  GitHub Actions  now");
    assert_eq!(lines[3], "  org/alpha (dev)");
    assert!(lines[4].starts_with('┌'));
    assert!(lines[5].starts_with("│ Workflow"));
    assert!(lines[7].starts_with("│ ci       │ pass"));
    assert!(lines[8].starts_with('└'));
    assert_eq!(lines[10], "  org/beta (dev)");
    assert_eq!(lines[11], "  ✗ boom");
    assert_eq!(lines.len(), 13);

    f.aggregate = true;
    let agg: Vec<String> = render_lines(&f, &t).iter().map(text).collect();
    assert!(agg[3].starts_with('┌'));
    assert!(agg[4].starts_with("│ Repo/Wo… │ Status"));
    assert!(agg[6].starts_with("│ alpha/ci │ pass"));
    assert_eq!(agg[agg.len() - 1], "  ✗ org/beta: boom");
}

#[test]
fn missing_times_show_dashes() {
    assert_eq!(fmt_time(None), "--");
    let t = fmt_time(Some(86_400 * 40));
    assert_eq!(t.chars().count(), 14);
    assert_eq!(&t[2..3], "-");
    assert_eq!(&t[5..6], " ");
}

#[test]
fn commit_links() {
    assert_eq!(commit_url("o/r", "abc"), "https://github.com/o/r/commit/abc");
}
