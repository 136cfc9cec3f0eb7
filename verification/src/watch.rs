//! Watch mode decisions: what each key press, timer tick and finished fetch
//! does to the dashboard, and what the terminal loop has to carry out.

use vstd::prelude::*;

use crate::model::{opt_chars, results_view, RepoResult, RepoView, RowView};
use crate::state::{committed, observations, transitions_of, transitions_view, State, Transition};
use crate::ui::{bold, commit_url, dim, fg, prompt_view, raw_style, sv, Color, Frame, Line, Span, SpanView, WatchInfo, commit_url_text};
use crate::ui::{bold_exec, dim_exec, fg_exec, raw_style_exec};

verus! {

/// A forgotten watch stops after this many seconds (6h).
pub const MAX_WATCH_SECS: u64 = 21600;

/// The shortest refresh interval, in seconds.
pub const MIN_INTERVAL_SECS: u64 = 5;

/// A key the dashboard reacts to.
#[derive(Clone, Copy, Debug, PartialEq, Eq, Structural)]
pub enum KeyCode {
    Char(char),
    Up,
    Down,
    Esc,
    Enter,
    Other,
}

/// A key press, with whether Control was held.
#[derive(Clone, Copy, Debug, PartialEq, Eq, Structural)]
pub struct Key {
    pub code: KeyCode,
    pub ctrl: bool,
}

/// A selectable row, flattened across repos in render order.
pub struct Sel {
    pub repo: String,
    pub run_id: u64,
    pub workflow: String,
    pub sha: Option<String>,
}

/// A selectable row with its strings taken as characters.
pub struct SelView {
    pub repo: Seq<char>,
    pub run_id: u64,
    pub workflow: Seq<char>,
    pub sha: Option<Seq<char>>,
}

impl View for Sel {
    type V = SelView;

    open spec fn view(&self) -> SelView {
        SelView { repo: self.repo@, run_id: self.run_id, workflow: self.workflow@, sha: opt_chars(self.sha) }
    }
}

/// A pending re-run awaiting y/n confirmation.
pub struct Confirm {
    pub repo: String,
    pub run_id: u64,
    pub workflow: String,
}

/// What the terminal loop has to carry out after an event.
pub struct Step {
    /// Leave watch mode.
    pub quit: bool,
    /// Start a background fetch of every repo.
    pub refresh: bool,
    /// Re-run this workflow run (repo, run id), then report how it went.
    pub rerun: Option<(String, u64)>,
    /// Open this page in the browser.
    pub open_url: Option<String>,
    /// Send a test notification.
    pub test_notification: bool,
    /// Announce these transitions.
    pub announce: Vec<Transition>,
    /// A fetch was applied: restart the refresh countdown.
    pub refreshed: bool,
}

/// The live dashboard's state.
pub struct App {
    pub repos: Vec<String>,
    pub branch: String,
    pub aggregate: bool,
    pub sound: bool,
    pub exclude: Vec<String>,
    pub interval_secs: u64,
    pub results: Vec<RepoResult>,
    pub loading: bool,
    pub spinner: usize,
    pub state: State,
    /// Index into the flattened selectable rows.
    pub selected: usize,
    /// Pending re-run confirmation.
    pub confirm: Option<Confirm>,
    /// A re-run that was confirmed and is being carried out.
    pub rerunning: Option<Confirm>,
    /// Transient status line.
    pub status: Option<String>,
}

/// Two dashboards watch the same repos and branch with the same settings.
pub open spec fn same_config(a: App, b: App) -> bool {
    &&& a.repos == b.repos
    &&& a.branch == b.branch
    &&& a.aggregate == b.aggregate
    &&& a.sound == b.sound
    &&& a.exclude == b.exclude
    &&& a.interval_secs == b.interval_secs
}

/// The selectable rows of the results: every row of every repo, in order.
pub open spec fn selectable_of(rs: Seq<RepoView>) -> Seq<SelView>
    decreases rs.len(),
{
    if rs.len() == 0 {
        Seq::empty()
    } else {
        selectable_of(rs.drop_last()) + rs.last().rows.map_values(
            |row: RowView| SelView { repo: rs.last().repo, run_id: row.run_id, workflow: row.name, sha: row.head_sha },
        )
    }
}

/// The selectable rows of a sequence, as views.
pub open spec fn sels_view(v: Seq<Sel>) -> Seq<SelView> {
    v.map_values(|s: Sel| s@)
}

fn copy_opt(o: &Option<String>) -> (r: Option<String>)
    ensures
        r == *o,
{
    match o {
        Some(s) => Some(s.clone()),
        None => None,
    }
}

/// The step that does nothing.
pub open spec fn idle(s: Step) -> bool {
    &&& !s.quit
    &&& !s.refresh
    &&& s.rerun is None
    &&& s.open_url is None
    &&& !s.test_notification
    &&& s.announce@.len() == 0
    &&& !s.refreshed
}

fn idle_step() -> (s: Step)
    ensures
        idle(s),
{
    Step {
        quit: false,
        refresh: false,
        rerun: None,
        open_url: None,
        test_notification: false,
        announce: Vec::new(),
        refreshed: false,
    }
}

/// The selection after the rows changed to `n` entries.
pub open spec fn clamped(selected: usize, n: nat) -> usize {
    if n == 0 {
        0
    } else if selected >= n {
        (n - 1) as usize
    } else {
        selected
    }
}

/// The first seven characters of a commit.
pub open spec fn short_sha(sha: Seq<char>) -> Seq<char> {
    sha.take(if sha.len() < 7 {
        sha.len() as int
    } else {
        7
    })
}

/// The seconds left before the next refresh, as the header shows them.
pub open spec fn remaining_secs(interval: u64, since_refresh: u64) -> i64 {
    let d = interval - since_refresh;
    if d < i64::MIN {
        i64::MIN
    } else if d > i64::MAX {
        i64::MAX
    } else {
        d as i64
    }
}

/// The line under the header: the confirmation prompt of a pending re-run,
/// else the transient status, else nothing.
pub open spec fn prompt_spans(confirm: Option<Confirm>, status: Option<String>) -> Option<Seq<SpanView>> {
    match confirm {
        Some(c) => Some(
            seq![
                sv("  "@, raw_style()),
                sv("Re-run “"@ + c.workflow@ + "” in "@ + c.repo@ + " ?"@, bold(Color::Yellow)),
                sv("   y = yes · n = no"@, dim()),
            ],
        ),
        None => match status {
            Some(s) => Some(seq![sv("  "@, raw_style()), sv(s@, fg(Color::Cyan))]),
            None => None,
        },
    }
}

impl App {
    /// A dashboard that has fetched nothing yet; the interval is at least `MIN_INTERVAL_SECS`.
    pub fn new(
        repos: Vec<String>,
        branch: String,
        aggregate: bool,
        sound: bool,
        exclude: Vec<String>,
        interval_secs: u64,
        state: State,
    ) -> (app: App)
        ensures
            app.repos == repos,
            app.branch == branch,
            app.aggregate == aggregate,
            app.sound == sound,
            app.exclude == exclude,
            app.interval_secs == (if interval_secs > MIN_INTERVAL_SECS {
                interval_secs
            } else {
                MIN_INTERVAL_SECS
            }),
            app.results@.len() == 0,
            !app.loading,
            app.spinner == 0,
            app.state == state,
            app.selected == 0,
            app.confirm is None,
            app.rerunning is None,
            app.status is None,
    {
        App {
            repos,
            branch,
            aggregate,
            sound,
            exclude,
            interval_secs: if interval_secs > MIN_INTERVAL_SECS {
                interval_secs
            } else {
                MIN_INTERVAL_SECS
            },
            results: Vec::new(),
            loading: false,
            spinner: 0,
            state,
            selected: 0,
            confirm: None,
            rerunning: None,
            status: None,
        }
    }

    /// Flatten all data rows across repos, in the same order the tables show them.
    pub fn selectable(&self) -> (sel: Vec<Sel>)
        ensures
            sels_view(sel@) == selectable_of(results_view(self.results@)),
    {
        let ghost rs = results_view(self.results@);
        let mut out: Vec<Sel> = Vec::new();
        for i in 0..self.results.len()
            invariant
                rs == results_view(self.results@),
                sels_view(out@) == selectable_of(rs.take(i as int)),
        {
            let repo = &self.results[i];
            let ghost base = sels_view(out@);
            let ghost f = |row: RowView| SelView { repo: repo@.repo, run_id: row.run_id, workflow: row.name, sha: row.head_sha };
            for k in 0..repo.rows.len()
                invariant
                    sels_view(out@) == base + repo@.rows.take(k as int).map_values(f),
                    f == (|row: RowView| SelView { repo: repo@.repo, run_id: row.run_id, workflow: row.name, sha: row.head_sha }),
            {
                let row = &repo.rows[k];
                let ghost before = sels_view(out@);
                out.push(
                    Sel {
                        repo: repo.repo.clone(),
                        run_id: row.run_id,
                        workflow: row.workflow_name.clone(),
                        sha: copy_opt(&row.head_sha),
                    },
                );
                assert(repo@.rows[k as int] == row@);
                assert(sels_view(out@) =~= before.push(f(row@)));
                assert(repo@.rows.take(k + 1).map_values(f) =~= repo@.rows.take(k as int).map_values(f).push(f(row@)));
            }
            assert(repo@.rows.take(repo.rows.len() as int) =~= repo@.rows);
            assert(rs.take(i + 1).drop_last() =~= rs.take(i as int));
            assert(rs.take(i + 1).last() == repo@);
        }
        assert(rs.take(self.results.len() as int) =~= rs);
        out
    }

    /// Start a background fetch.
    fn trigger_refresh(&mut self, step: &mut Step)
        ensures
            final(self).loading,
            final(step).refresh,
            final(self).results == old(self).results,
            final(self).selected == old(self).selected,
            final(self).spinner == old(self).spinner,
            final(self).state == old(self).state,
            final(self).confirm == old(self).confirm,
            final(self).rerunning == old(self).rerunning,
            final(self).status == old(self).status,
            same_config(*old(self), *final(self)),
            final(step).quit == old(step).quit,
            final(step).rerun == old(step).rerun,
            final(step).open_url == old(step).open_url,
            final(step).test_notification == old(step).test_notification,
            final(step).announce == old(step).announce,
            final(step).refreshed == old(step).refreshed,
    {
        self.loading = true;
        step.refresh = true;
    }

    /// Entering watch mode: the first fetch starts at once.
    pub fn start(&mut self) -> (step: Step)
        ensures
            final(self).loading,
            step.refresh,
            !step.quit && step.rerun is None && step.open_url is None && !step.test_notification
                && step.announce@.len() == 0 && !step.refreshed,
            final(self).results == old(self).results,
            final(self).selected == old(self).selected,
            final(self).state == old(self).state,
            final(self).confirm == old(self).confirm,
            final(self).rerunning == old(self).rerunning,
            final(self).status == old(self).status,
            final(self).spinner == old(self).spinner,
            same_config(*old(self), *final(self)),
    {
        let mut step = idle_step();
        self.trigger_refresh(&mut step);
        step
    }

    /// Apply a finished fetch: announce transitions against the remembered
    /// outcomes, remember the new ones, show the results and keep the selection in bounds.
    pub fn apply(&mut self, results: Vec<RepoResult>) -> (step: Step)
        ensures
            transitions_view(step.announce@) == transitions_of(
                old(self).state.memory(),
                observations(results_view(results@)),
            ),
            final(self).state.memory() == committed(
                old(self).state.memory(),
                observations(results_view(results@)),
            ),
            final(self).results == results,
            !final(self).loading,
            step.refreshed,
            !step.quit && !step.refresh && step.rerun is None && step.open_url is None
                && !step.test_notification,
            final(self).selected == clamped(
                old(self).selected,
                selectable_of(results_view(results@)).len(),
            ),
            final(self).spinner == old(self).spinner,
            final(self).confirm == old(self).confirm,
            final(self).rerunning == old(self).rerunning,
            final(self).status == old(self).status,
            same_config(*old(self), *final(self)),
    {
        let transitions = self.state.diff(&results);
        self.state.commit(&results);
        self.results = results;
        self.loading = false;
        let n = self.selectable().len();
        if n == 0 {
            self.selected = 0;
        } else if self.selected >= n {
            self.selected = n - 1;
        }
        let mut step = idle_step();
        step.announce = transitions;
        step.refreshed = true;
        step
    }

    /// A timer tick: advance the spinner while loading, refresh once the
    /// interval has passed, and stop after `MAX_WATCH_SECS`.
    pub fn on_tick(&mut self, since_refresh: u64, since_start: u64) -> (step: Step)
        ensures
            final(self).spinner == (if old(self).loading {
                if old(self).spinner == usize::MAX {
                    0
                } else {
                    (old(self).spinner + 1) as usize
                }
            } else {
                old(self).spinner
            }),
            step.refresh == (!old(self).loading && since_refresh >= old(self).interval_secs),
            final(self).loading == (old(self).loading || step.refresh),
            step.quit == (since_start >= MAX_WATCH_SECS),
            step.rerun is None && step.open_url is None && !step.test_notification
                && step.announce@.len() == 0 && !step.refreshed,
            final(self).results == old(self).results,
            final(self).selected == old(self).selected,
            final(self).state == old(self).state,
            final(self).confirm == old(self).confirm,
            final(self).rerunning == old(self).rerunning,
            final(self).status == old(self).status,
            same_config(*old(self), *final(self)),
    {
        let mut step = idle_step();
        if self.loading {
            self.spinner = self.spinner.wrapping_add(1);
        }
        if !self.loading && since_refresh >= self.interval_secs {
            self.trigger_refresh(&mut step);
        }
        if since_start >= MAX_WATCH_SECS {
            step.quit = true;
        }
        step
    }

    /// Handle a key press.
    pub fn on_key(&mut self, key: Key) -> (step: Step)
        ensures
            old(self).confirm is Some ==> ({
                let c = old(self).confirm->0;
                &&& final(self).confirm is None
                &&& !step.quit && !step.refresh && step.open_url is None && !step.test_notification
                &&& final(self).selected == old(self).selected
                &&& final(self).loading == old(self).loading
                &&& if key.code == KeyCode::Char('y') || key.code == KeyCode::Char('Y') {
                    &&& step.rerun matches Some(r) && r.0@ == c.repo@ && r.1 == c.run_id
                    &&& final(self).rerunning == Some(c)
                    &&& final(self).status == old(self).status
                } else {
                    &&& step.rerun is None
                    &&& final(self).rerunning == old(self).rerunning
                    &&& final(self).status matches Some(s) && s@ == "re-run cancelled"@
                }
            }),
            old(self).confirm is None ==> ({
                let rows = selectable_of(results_view(old(self).results@));
                let sel = old(self).selected;
                &&& step.quit == (key.code == KeyCode::Char('q') || key.code == KeyCode::Esc || (
                    key.code == KeyCode::Char('c') && key.ctrl))
                &&& step.rerun is None
                &&& final(self).rerunning == old(self).rerunning
                &&& (key.code == KeyCode::Up || key.code == KeyCode::Char('k')) ==> final(self).selected == (if sel > 0 { (sel - 1) as usize } else { 0 })
                &&& (key.code == KeyCode::Down || key.code == KeyCode::Char('j')) ==> final(self).selected == (if sel + 1 < rows.len() { (sel + 1) as usize } else { sel })
                &&& !(key.code == KeyCode::Up || key.code == KeyCode::Char('k') || key.code == KeyCode::Down || key.code == KeyCode::Char('j')) ==> final(self).selected == sel
                &&& step.refresh == ((key.code == KeyCode::Char('r') || key.code == KeyCode::Char('R')) && !old(self).loading)
                &&& final(self).loading == (old(self).loading || step.refresh)
                &&& step.test_notification == (key.code == KeyCode::Char('t'))
                &&& key.code == KeyCode::Char('t') ==> (final(self).status matches Some(s) && s@ == "test notification sent"@)
                &&& (key.code == KeyCode::Char('o') && sel < rows.len()) ==> match rows[sel as int].sha {
                    Some(sha) => {
                        &&& step.open_url matches Some(u) && u@ == commit_url_text(rows[sel as int].repo, sha)
                        &&& final(self).status matches Some(s) && s@ == "opened commit "@ + short_sha(sha)
                    },
                    None => step.open_url is None && (final(self).status matches Some(s) && s@ == "no commit for that row"@),
                }
                &&& !(key.code == KeyCode::Char('o') && sel < rows.len()) ==> step.open_url is None
                &&& ((key.code == KeyCode::Char('x') || key.code == KeyCode::Enter) && sel < rows.len()) ==> (final(self).confirm matches Some(c) && c.repo@ == rows[sel as int].repo && c.run_id == rows[sel as int].run_id && c.workflow@ == rows[sel as int].workflow)
                &&& !((key.code == KeyCode::Char('x') || key.code == KeyCode::Enter) && sel < rows.len()) ==> final(self).confirm is None
                &&& (key.code == KeyCode::Char('o') && sel >= rows.len()) ==> final(self).status == old(self).status
                &&& !(key.code == KeyCode::Char('t') || key.code == KeyCode::Char('o')) ==> final(self).status == old(self).status
            }),
            step.announce@.len() == 0 && !step.refreshed,
            final(self).results == old(self).results,
            final(self).state == old(self).state,
            final(self).spinner == old(self).spinner,
            same_config(*old(self), *final(self)),
    {
        let mut step = idle_step();
        if self.confirm.is_some() {
            let c = self.confirm.take().unwrap();
            match key.code {
                KeyCode::Char('y') | KeyCode::Char('Y') => {
                    step.rerun = Some((c.repo.clone(), c.run_id));
                    self.rerunning = Some(c);
                },
                _ => {
                    self.status = Some(String::from_str("re-run cancelled"));
                },
            }
            return step;
        }
        let rows = self.selectable();
        let ghost rv = selectable_of(results_view(self.results@));
        assert(sels_view(rows@) == rv);
        assert(rows.len() == rv.len());
        match key.code {
            KeyCode::Char('q') | KeyCode::Esc => {
                step.quit = true;
            },
            KeyCode::Char('c') if key.ctrl => {
                step.quit = true;
            },
            KeyCode::Up | KeyCode::Char('k') => {
                if self.selected > 0 {
                    self.selected = self.selected - 1;
                }
            },
            KeyCode::Down | KeyCode::Char('j') => {
                if rows.len() > 0 && self.selected < rows.len() - 1 {
                    self.selected = self.selected + 1;
                }
            },
            KeyCode::Char('r') | KeyCode::Char('R') => {
                if !self.loading {
                    self.trigger_refresh(&mut step);
                }
            },
            KeyCode::Char('t') => {
                step.test_notification = true;
                self.status = Some(String::from_str("test notification sent"));
            },
            KeyCode::Char('o') => {
                if self.selected < rows.len() {
                    let s = &rows[self.selected];
                    assert(rv[self.selected as int] == s@);
                    match &s.sha {
                        Some(sha) => {
                            step.open_url = Some(commit_url(s.repo.as_str(), sha.as_str()));
                            let v = crate::text::chars_of(sha.as_str());
                            let n = if v.len() < 7 {
                                v.len()
                            } else {
                                7
                            };
                            let short = crate::text::slice_chars(&v, 0, n);
                            let mut m = String::from_str("opened commit ");
                            crate::text::push_chars(&mut m, &short);
                            assert(short@ =~= short_sha(sha@));
                            self.status = Some(m);
                        },
                        None => {
                            self.status = Some(String::from_str("no commit for that row"));
                        },
                    }
                }
            },
            KeyCode::Char('x') | KeyCode::Enter => {
                if self.selected < rows.len() {
                    let s = &rows[self.selected];
                    assert(rv[self.selected as int] == s@);
                    self.confirm = Some(
                        Confirm { repo: s.repo.clone(), run_id: s.run_id, workflow: s.workflow.clone() },
                    );
                }
            },
            _ => {},
        }
        step
    }

    /// The outcome of a confirmed re-run: report it and, on success, refresh.
    pub fn on_rerun_done(&mut self, outcome: Result<(), String>) -> (step: Step)
        ensures
            final(self).rerunning is None,
            old(self).rerunning matches Some(c) ==> match outcome {
                Ok(()) => {
                    &&& final(self).status matches Some(s) && s@ == "⟳ re-run triggered — "@ + c.workflow@ + " ("@ + c.repo@ + ")"@
                    &&& step.refresh
                    &&& final(self).loading
                },
                Err(e) => {
                    &&& final(self).status matches Some(s) && s@ == "✗ re-run failed: "@ + e@
                    &&& !step.refresh
                    &&& final(self).loading == old(self).loading
                },
            },
            old(self).rerunning is None ==> !step.refresh && final(self).status == old(self).status
                && final(self).loading == old(self).loading,
            !step.quit && step.rerun is None && step.open_url is None && !step.test_notification
                && step.announce@.len() == 0 && !step.refreshed,
            final(self).results == old(self).results,
            final(self).state == old(self).state,
            final(self).selected == old(self).selected,
            final(self).confirm == old(self).confirm,
            final(self).spinner == old(self).spinner,
            same_config(*old(self), *final(self)),
    {
        let mut step = idle_step();
        match self.rerunning.take() {
            Some(c) => match outcome {
                Ok(()) => {
                    let mut m = String::from_str("⟳ re-run triggered — ");
                    m.append(c.workflow.as_str());
                    m.append(" (");
                    m.append(c.repo.as_str());
                    m.append(")");
                    self.status = Some(m);
                    self.trigger_refresh(&mut step);
                },
                Err(e) => {
                    let mut m = String::from_str("✗ re-run failed: ");
                    m.append(e.as_str());
                    self.status = Some(m);
                },
            },
            None => {},
        }
        step
    }

    /// The confirm prompt or transient status, shown under the header.
    pub fn prompt_line(&self) -> (l: Option<Line>)
        ensures
            prompt_view(l) == prompt_spans(self.confirm, self.status),
    {
        match &self.confirm {
            Some(c) => {
                let mut m = String::from_str("Re-run “");
                m.append(c.workflow.as_str());
                m.append("” in ");
                m.append(c.repo.as_str());
                m.append(" ?");
                let mut spans: Vec<Span> = Vec::new();
                spans.push(Span { content: String::from_str("  "), style: raw_style_exec() });
                spans.push(Span { content: m, style: bold_exec(Color::Yellow) });
                spans.push(Span { content: String::from_str("   y = yes · n = no"), style: dim_exec() });
                let l = Line { spans };
                assert(l@ =~= seq![
                    sv("  "@, raw_style()),
                    sv("Re-run “"@ + c.workflow@ + "” in "@ + c.repo@ + " ?"@, bold(Color::Yellow)),
                    sv("   y = yes · n = no"@, dim()),
                ]);
                Some(l)
            },
            None => match &self.status {
                Some(s) => {
                    let mut spans: Vec<Span> = Vec::new();
                    spans.push(Span { content: String::from_str("  "), style: raw_style_exec() });
                    spans.push(Span { content: s.clone(), style: fg_exec(Color::Cyan) });
                    let l = Line { spans };
                    assert(l@ =~= seq![sv("  "@, raw_style()), sv(s@, fg(Color::Cyan))]);
                    Some(l)
                },
                None => None,
            },
        }
    }

    /// The frame to draw now, `since_refresh` seconds after the last refresh.
    pub fn frame<'a>(&'a self, now: i64, since_refresh: u64) -> (f: Frame<'a>)
        ensures
            f.results == &self.results,
            f.aggregate == self.aggregate,
            f.branch@ == self.branch@,
            f.now == now,
            f.watch matches Some(w) && w.interval == self.interval_secs && w.remaining
                == remaining_secs(self.interval_secs, since_refresh),
            f.spinner == self.spinner,
            f.loading == self.loading,
            prompt_view(f.prompt) == prompt_spans(self.confirm, self.status),
    {
        let d: i128 = self.interval_secs as i128 - since_refresh as i128;
        let remaining: i64 = if d < i64::MIN as i128 {
            i64::MIN
        } else if d > i64::MAX as i128 {
            i64::MAX
        } else {
            d as i64
        };
        Frame {
            results: &self.results,
            aggregate: self.aggregate,
            branch: self.branch.as_str(),
            now,
            watch: Some(WatchInfo { interval: self.interval_secs, remaining }),
            spinner: self.spinner,
            loading: self.loading,
            prompt: self.prompt_line(),
        }
    }
}

/// The selection stays on a row: after a refresh it is clamped into the new
/// rows, and moving up or down from a row lands on a row.
pub proof fn law_selection_stays_on_a_row(selected: usize, n: nat)
    ensures
        n > 0 ==> clamped(selected, n) < n,
        n == 0 ==> clamped(selected, n) == 0,
        selected < n ==> (if selected + 1 < n {
            selected + 1
        } else {
            selected as int
        }) < n,
        selected < n ==> (if selected > 0 {
            selected - 1
        } else {
            0
        }) < n,
{
}

} // verus!
