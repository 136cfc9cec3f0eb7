//! Deriving the dashboard rows from one page of workflow runs: the latest run
//! per workflow, recent history, the commit a failure streak started on, and
//! the ETA, all computed from the runs themselves.

use vstd::prelude::*;
use vstd::string::StringSliceAdditionalSpecFns;

use crate::model::{badge_of, dot_of, opt_chars, rows_view, strings_view, Badge, Dot, RepoResult, RowView, WorkflowRow};
use crate::seqs::{first_occurrences, lemma_filter_step, lemma_first_occurrences, lemma_first_occurrences_push, lemma_insert_at, lemma_stable_sort_multiset, lemma_stable_sort_sorted, stable_sort, total_preorder};
use crate::config::split_lines;
use crate::text::{chars_of, contains_chars, dec, has_sub, hex2, hex_digit, hex_digit_char, lemma_lex_total, lemma_lex_trans, lex_le, lex_le_exec, lowercase, push_char, push_dec, str_eq, string_of, to_lower, trim, trim_chars, trimmed};

verus! {

/// How many runs the recent-history column shows.
pub const RECENT_COUNT: usize = 6;

/// How many runs one request asks for.
pub const RUN_PAGE_SIZE: u64 = 100;

/// Every timestamp a `DateTime<Utc>` can hold lies within this many seconds of the epoch.
pub const TIME_LIMIT: i64 = 8796093022208;

/// A timestamp in the range of calendar dates.
pub open spec fn time_ok(t: i64) -> bool {
    -TIME_LIMIT <= t <= TIME_LIMIT
}

/// One workflow run as the Actions API reports it; times are seconds since the epoch.
pub struct ApiRun {
    pub id: u64,
    pub name: Option<String>,
    pub workflow_id: u64,
    pub status: Option<String>,
    pub conclusion: Option<String>,
    pub head_sha: String,
    pub run_started_at: Option<i64>,
    pub created_at: i64,
    pub updated_at: i64,
}

/// One workflow as the Actions API reports it.
pub struct ApiWorkflow {
    pub id: u64,
    pub state: String,
}

fn copy_opt(o: &Option<String>) -> (r: Option<String>)
    ensures
        r == *o,
{
    match o {
        Some(s) => Some(s.clone()),
        None => None,
    }
}

impl ApiRun {
    /// When the run started: its start time, or its creation time when it has none.
    pub open spec fn start(self) -> i64 {
        match self.run_started_at {
            Some(t) => t,
            None => self.created_at,
        }
    }

    /// All of the run's timestamps are calendar dates.
    pub open spec fn well_formed(self) -> bool {
        &&& time_ok(self.created_at)
        &&& time_ok(self.updated_at)
        &&& (self.run_started_at matches Some(t) ==> time_ok(t))
    }

    pub fn started(&self) -> (t: i64)
        ensures
            t == self.start(),
    {
        match self.run_started_at {
            Some(t) => t,
            None => self.created_at,
        }
    }

    /// An identical copy of the run.
    pub fn copy(&self) -> (r: ApiRun)
        ensures
            r == *self,
    {
        ApiRun {
            id: self.id,
            name: copy_opt(&self.name),
            workflow_id: self.workflow_id,
            status: copy_opt(&self.status),
            conclusion: copy_opt(&self.conclusion),
            head_sha: self.head_sha.clone(),
            run_started_at: self.run_started_at,
            created_at: self.created_at,
            updated_at: self.updated_at,
        }
    }
}

/// Every run of the sequence is well formed.
pub open spec fn all_well_formed(runs: Seq<ApiRun>) -> bool {
    forall|i: int| 0 <= i < runs.len() ==> #[trigger] runs[i].well_formed()
}

// ── specification of the derivation ──────────────────────────────

/// Runs are kept when no active list is known, or when their workflow is active.
pub open spec fn keeps(active: Seq<u64>) -> spec_fn(ApiRun) -> bool {
    |r: ApiRun| active.len() == 0 || active.contains(r.workflow_id)
}

/// The runs of workflow `w`.
pub open spec fn of_workflow(w: u64) -> spec_fn(ApiRun) -> bool {
    |r: ApiRun| r.workflow_id == w
}

/// `a` may precede `b` when newest first: it started no earlier.
pub open spec fn newer_first() -> spec_fn(ApiRun, ApiRun) -> bool {
    |a: ApiRun, b: ApiRun| a.start() >= b.start()
}

/// The workflow of a run.
pub open spec fn workflow_of() -> spec_fn(ApiRun) -> u64 {
    |r: ApiRun| r.workflow_id
}

/// The workflows of `runs`, in order of first appearance.
pub open spec fn workflow_ids(runs: Seq<ApiRun>) -> Seq<u64> {
    first_occurrences(runs.map_values(workflow_of()))
}

/// The runs of workflow `w`, newest first (ties keep their order).
pub open spec fn group_of(runs: Seq<ApiRun>, w: u64) -> Seq<ApiRun> {
    stable_sort(runs.filter(of_workflow(w)), newer_first())
}

/// The duration of the most recent successful run of a newest-first group.
pub open spec fn estimate(g: Seq<ApiRun>) -> Option<i64>
    decreases g.len(),
{
    if g.len() == 0 {
        None
    } else if opt_chars(g[0].conclusion) == Some("success"@) {
        let d = g[0].updated_at - g[0].start();
        Some((if d > 0 {
            d
        } else {
            0
        }) as i64)
    } else {
        estimate(g.drop_first())
    }
}

/// The dot of a run.
pub open spec fn run_dot(r: ApiRun) -> Dot {
    dot_of(opt_chars(r.status), opt_chars(r.conclusion))
}

/// The dot of a run, as a function.
pub open spec fn run_dot_fn() -> spec_fn(ApiRun) -> Dot {
    |r: ApiRun| run_dot(r)
}

/// The recent-history dots of a newest-first group.
pub open spec fn recent_of(g: Seq<ApiRun>) -> Seq<Dot> {
    g.take(if g.len() < RECENT_COUNT {
        g.len() as int
    } else {
        RECENT_COUNT as int
    }).map_values(run_dot_fn())
}

/// How many of the newest runs failed in a row.
pub open spec fn failing_streak(g: Seq<ApiRun>) -> nat
    decreases g.len(),
{
    if g.len() > 0 && run_dot(g[0]) == Dot::Fail {
        1 + failing_streak(g.drop_first())
    } else {
        0
    }
}

/// The commit of the oldest run in the current streak of failures.
pub open spec fn fail_since(g: Seq<ApiRun>) -> Option<Seq<char>> {
    let n = failing_streak(g);
    if n > 0 && g[n - 1].head_sha@.len() > 0 {
        Some(g[n - 1].head_sha@)
    } else {
        None
    }
}

/// The status of a run, `unknown` when it has none.
pub open spec fn status_text(r: ApiRun) -> Seq<char> {
    match r.status {
        Some(s) => s@,
        None => "unknown"@,
    }
}

/// The row of a non-empty, newest-first group of runs of one workflow.
pub open spec fn row_of(g: Seq<ApiRun>) -> RowView {
    let latest = g[0];
    RowView {
        name: match latest.name {
            Some(n) => n@,
            None => "unknown"@,
        },
        badge: badge_of(status_text(latest), opt_chars(latest.conclusion)),
        started_at: Some(latest.start()),
        finished_at: if status_text(latest) == "completed"@ {
            Some(latest.updated_at)
        } else {
            None
        },
        eta: estimate(g),
        head_sha: if latest.head_sha@.len() > 0 {
            Some(latest.head_sha@)
        } else {
            None
        },
        run_id: latest.id,
        recent: recent_of(g),
        fail_since: fail_since(g),
    }
}

/// The rows of the kept runs, one per workflow in order of first appearance.
pub open spec fn rows_of(runs: Seq<ApiRun>) -> Seq<RowView> {
    workflow_ids(runs).map_values(|w: u64| row_of(group_of(runs, w)))
}

/// A workflow name matches an exclusion pattern, ignoring case.
pub open spec fn is_excluded(name: Seq<char>, exclude: Seq<Seq<char>>) -> bool {
    exists|i: int|
        0 <= i < exclude.len() && has_sub(lowercase(name), lowercase(#[trigger] exclude[i]))
}

/// Rows that no exclusion pattern matches.
pub open spec fn shown(exclude: Seq<Seq<char>>) -> spec_fn(RowView) -> bool {
    |r: RowView| !is_excluded(r.name, exclude)
}

/// `a` may precede `b`: its lower-cased name is no greater.
pub open spec fn by_name() -> spec_fn(RowView, RowView) -> bool {
    |a: RowView, b: RowView| lex_le(lowercase(a.name), lowercase(b.name))
}

/// The rows derived from one page of runs: one row per workflow whose runs
/// are kept, without excluded names, sorted by lower-cased name.
pub open spec fn derived_rows(runs: Seq<ApiRun>, active: Seq<u64>, exclude: Seq<Seq<char>>) -> Seq<
    RowView,
> {
    stable_sort(rows_of(runs.filter(keeps(active))).filter(shown(exclude)), by_name())
}

// ── implementation ───────────────────────────────────────────────

fn contains_u64(v: &Vec<u64>, x: u64) -> (r: bool)
    ensures
        r == v@.contains(x),
{
    let mut i: usize = 0;
    while i < v.len()
        invariant
            i <= v.len(),
            forall|j: int| 0 <= j < i ==> v@[j] != x,
        decreases v.len() - i,
    {
        if v[i] == x {
            assert(v@[i as int] == x);
            return true;
        }
        i = i + 1;
    }
    false
}

/// A workflow the API reports as active.
pub open spec fn is_active_workflow() -> spec_fn(ApiWorkflow) -> bool {
    |w: ApiWorkflow| w.state@ == "active"@
}

/// The id of a workflow.
pub open spec fn workflow_id_of() -> spec_fn(ApiWorkflow) -> u64 {
    |w: ApiWorkflow| w.id
}

/// The ids of the active workflows, in the order listed.
pub fn active_ids(workflows: &Vec<ApiWorkflow>) -> (ids: Vec<u64>)
    ensures
        ids@ == workflows@.filter(is_active_workflow()).map_values(workflow_id_of()),
{
    let mut ids: Vec<u64> = Vec::new();
    for i in 0..workflows.len()
        invariant
            ids@ == workflows@.take(i as int).filter(is_active_workflow()).map_values(
                workflow_id_of(),
            ),
    {
        proof {
            lemma_filter_step(workflows@, i as int, is_active_workflow());
        }
        if str_eq(workflows[i].state.as_str(), "active") {
            ids.push(workflows[i].id);
            assert(ids@ =~= workflows@.take(i + 1).filter(is_active_workflow()).map_values(
                workflow_id_of(),
            ));
        }
    }
    assert(workflows@.take(workflows.len() as int) =~= workflows@);
    ids
}

/// The runs kept when `active` lists the active workflows.
fn keep_active(runs: &Vec<ApiRun>, active: &Vec<u64>) -> (kept: Vec<ApiRun>)
    requires
        all_well_formed(runs@),
    ensures
        kept@ == runs@.filter(keeps(active@)),
        all_well_formed(kept@),
{
    let ghost p = keeps(active@);
    let mut kept: Vec<ApiRun> = Vec::new();
    for i in 0..runs.len()
        invariant
            p == keeps(active@),
            kept@ == runs@.take(i as int).filter(p),
            all_well_formed(runs@),
            all_well_formed(kept@),
    {
        proof {
            lemma_filter_step(runs@, i as int, p);
        }
        if active.len() == 0 || contains_u64(active, runs[i].workflow_id) {
            kept.push(runs[i].copy());
        }
    }
    assert(runs@.take(runs.len() as int) =~= runs@);
    kept
}

/// The workflows of `runs`, in order of first appearance.
fn workflow_ids_of(runs: &Vec<ApiRun>) -> (ids: Vec<u64>)
    ensures
        ids@ == workflow_ids(runs@),
{
    let mut ids: Vec<u64> = Vec::new();
    for i in 0..runs.len()
        invariant
            ids@ == first_occurrences(runs@.take(i as int).map_values(workflow_of())),
    {
        let w = runs[i].workflow_id;
        proof {
            assert(runs@.take(i + 1).map_values(workflow_of()) =~= runs@.take(
                i as int,
            ).map_values(workflow_of()).push(w));
            lemma_first_occurrences_push(runs@.take(i as int).map_values(workflow_of()), w);
        }
        if !contains_u64(&ids, w) {
            ids.push(w);
        }
    }
    assert(runs@.take(runs.len() as int) =~= runs@);
    ids
}

/// The runs of workflow `w`, newest first.
fn group_newest_first(runs: &Vec<ApiRun>, w: u64) -> (g: Vec<ApiRun>)
    requires
        all_well_formed(runs@),
    ensures
        g@ == group_of(runs@, w),
        all_well_formed(g@),
{
    let ghost p = of_workflow(w);
    let ghost le = newer_first();
    let mut g: Vec<ApiRun> = Vec::new();
    for i in 0..runs.len()
        invariant
            p == of_workflow(w),
            le == newer_first(),
            g@ == stable_sort(runs@.take(i as int).filter(p), le),
            all_well_formed(runs@),
            all_well_formed(g@),
    {
        proof {
            lemma_filter_step(runs@, i as int, p);
        }
        if runs[i].workflow_id == w {
            let x = runs[i].copy();
            let ghost old_g = g@;
            let key = x.started();
            let mut pos = g.len();
            while pos > 0 && g[pos - 1].started() < key
                invariant
                    pos <= g.len(),
                    forall|k: int| pos <= k < g.len() ==> !le(#[trigger] g@[k], x),
                    le == newer_first(),
                    key == x.start(),
                decreases pos,
            {
                pos = pos - 1;
            }
            proof {
                lemma_insert_at(g@, x, le, pos as int);
                let f = runs@.take(i as int).filter(p);
                assert(f.push(x).drop_last() =~= f);
                assert(g@.insert(pos as int, x) =~= g@.take(pos as int).push(x) + g@.skip(
                    pos as int,
                ));
            }
            g.insert(pos, x);
            assert(runs@[i as int].well_formed());
            assert forall|k: int| 0 <= k < g@.len() implies #[trigger] g@[k].well_formed() by {
                if k < pos {
                    assert(g@[k] == old_g[k]);
                } else if k > pos {
                    assert(g@[k] == old_g[k - 1]);
                }
            }
        }
    }
    assert(runs@.take(runs.len() as int) =~= runs@);
    g
}

/// Duration of the most recent successful run in a newest-first group.
pub fn estimate_duration(group: &Vec<ApiRun>) -> (eta: Option<i64>)
    requires
        all_well_formed(group@),
    ensures
        eta == estimate(group@),
{
    let mut i: usize = 0;
    assert(group@.skip(0) =~= group@);
    while i < group.len()
        invariant
            i <= group.len(),
            all_well_formed(group@),
            estimate(group@) == estimate(group@.skip(i as int)),
        decreases group.len() - i,
    {
        assert(group@.skip(i as int)[0] == group@[i as int]);
        if opt_eq_str(&group[i].conclusion, "success") {
            let r = &group[i];
            assert(r.well_formed());
            let d = r.updated_at - r.started();
            return Some(
                if d > 0 {
                    d
                } else {
                    0
                },
            );
        }
        assert(group@.skip(i as int).drop_first() =~= group@.skip(i + 1));
        i = i + 1;
    }
    None
}

fn opt_eq_str(o: &Option<String>, lit: &str) -> (r: bool)
    ensures
        r == (opt_chars(*o) == Some(lit@)),
{
    match o {
        Some(s) => str_eq(s.as_str(), lit),
        None => false,
    }
}

/// The dots of the most recent runs of a newest-first group.
pub fn recent_dots(group: &Vec<ApiRun>) -> (dots: Vec<Dot>)
    ensures
        dots@ == recent_of(group@),
{
    let n = if group.len() < RECENT_COUNT {
        group.len()
    } else {
        RECENT_COUNT
    };
    let mut dots: Vec<Dot> = Vec::new();
    for i in 0..n
        invariant
            n <= group.len(),
            n == (if group.len() < RECENT_COUNT {
                group.len()
            } else {
                RECENT_COUNT
            }),
            dots@ == group@.take(i as int).map_values(run_dot_fn()),
    {
        dots.push(Dot::from_run(&group[i].status, &group[i].conclusion));
        assert(group@.take(i + 1).map_values(run_dot_fn()) =~= group@.take(
            i as int,
        ).map_values(run_dot_fn()).push(run_dot(group@[i as int])));
    }
    dots
}

/// The commit of the oldest run in the current streak of failures, if any.
pub fn fail_since_sha(group: &Vec<ApiRun>) -> (sha: Option<String>)
    ensures
        opt_chars(sha) == fail_since(group@),
{
    let mut n: usize = 0;
    assert(group@.skip(0) =~= group@);
    while n < group.len() && Dot::from_run(&group[n].status, &group[n].conclusion) == Dot::Fail
        invariant
            n <= group.len(),
            failing_streak(group@) == n + failing_streak(group@.skip(n as int)),
        decreases group.len() - n,
    {
        assert(group@.skip(n as int)[0] == group@[n as int]);
        assert(group@.skip(n as int).drop_first() =~= group@.skip(n + 1));
        n = n + 1;
    }
    assert(n < group.len() ==> group@.skip(n as int)[0] == group@[n as int]);
    if n > 0 && group[n - 1].head_sha.as_str().unicode_len() > 0 {
        Some(group[n - 1].head_sha.clone())
    } else {
        None
    }
}

/// The row for a non-empty, newest-first group of runs of one workflow.
pub fn build_row(group: &Vec<ApiRun>) -> (row: WorkflowRow)
    requires
        group.len() > 0,
        all_well_formed(group@),
    ensures
        row@ == row_of(group@),
{
    let latest = &group[0];
    let status: &str = match &latest.status {
        Some(s) => s.as_str(),
        None => "unknown",
    };
    assert(status@ == status_text(*latest));
    let name = match &latest.name {
        Some(n) => n.clone(),
        None => String::from_str("unknown"),
    };
    let head_sha = if latest.head_sha.as_str().unicode_len() > 0 {
        Some(latest.head_sha.clone())
    } else {
        None
    };
    WorkflowRow {
        workflow_name: name,
        badge: Badge::from_run(status, &latest.conclusion),
        started_at: Some(latest.started()),
        finished_at: if str_eq(status, "completed") {
            Some(latest.updated_at)
        } else {
            None
        },
        eta_total_secs: estimate_duration(group),
        head_sha,
        run_id: latest.id,
        recent: recent_dots(group),
        fail_since_sha: fail_since_sha(group),
    }
}

/// Lower-cased copies of the exclusion patterns.
fn lower_all(exclude: &Vec<String>) -> (pats: Vec<Vec<char>>)
    ensures
        pats.len() == exclude.len(),
        forall|i: int| 0 <= i < exclude.len() ==> (#[trigger] pats@[i])@ == lowercase(exclude@[i]@),
{
    let mut pats: Vec<Vec<char>> = Vec::new();
    for i in 0..exclude.len()
        invariant
            pats.len() == i,
            forall|j: int| 0 <= j < i ==> (#[trigger] pats@[j])@ == lowercase(exclude@[j]@),
    {
        let l = to_lower(exclude[i].as_str());
        pats.push(chars_of(l.as_str()));
    }
    pats
}

/// Whether a lower-cased name contains one of the lower-cased patterns.
fn matches_any(name: &Vec<char>, pats: &Vec<Vec<char>>, exclude: Ghost<Seq<Seq<char>>>) -> (r: bool)
    requires
        pats.len() == exclude@.len(),
        forall|i: int| 0 <= i < exclude@.len() ==> (#[trigger] pats@[i])@ == lowercase(exclude@[i]),
    ensures
        r == (exists|i: int| 0 <= i < exclude@.len() && has_sub(name@, lowercase(#[trigger] exclude@[i]))),
{
    let mut i: usize = 0;
    while i < pats.len()
        invariant
            pats.len() == exclude@.len(),
            forall|j: int| 0 <= j < exclude@.len() ==> (#[trigger] pats@[j])@ == lowercase(exclude@[j]),
            i <= pats.len(),
            forall|j: int| 0 <= j < i ==> !has_sub(name@, lowercase(#[trigger] exclude@[j])),
        decreases pats.len() - i,
    {
        if contains_chars(name, &pats[i]) {
            assert(has_sub(name@, lowercase(exclude@[i as int])));
            return true;
        }
        i = i + 1;
    }
    false
}

/// The rows for one page of runs: one per workflow (restricted to `active`
/// when it is non-empty), without names matching an `exclude` pattern
/// (ignoring case), sorted by lower-cased name.
pub fn derive_rows(runs: &Vec<ApiRun>, active: &Vec<u64>, exclude: &Vec<String>) -> (rows: Vec<
    WorkflowRow,
>)
    requires
        all_well_formed(runs@),
    ensures
        rows_view(rows@) == derived_rows(runs@, active@, strings_view(exclude@)),
{
    let kept = keep_active(runs, active);
    let ghost ks = kept@;
    let ids = workflow_ids_of(&kept);
    let ghost ex = strings_view(exclude@);
    let ghost all_rows = rows_of(ks);
    let ghost show = shown(ex);
    let ghost le = by_name();
    let pats = lower_all(exclude);
    let mut rows: Vec<WorkflowRow> = Vec::new();
    let mut keys: Vec<Vec<char>> = Vec::new();
    for j in 0..ids.len()
        invariant
            ids@ == workflow_ids(ks),
            kept@ == ks,
            all_well_formed(ks),
            all_rows == rows_of(ks),
            ex == strings_view(exclude@),
            show == shown(ex),
            le == by_name(),
            pats.len() == exclude.len(),
            forall|i: int| 0 <= i < exclude.len() ==> (#[trigger] pats@[i])@ == lowercase(exclude@[i]@),
            rows_view(rows@) == stable_sort(all_rows.take(j as int).filter(show), le),
            keys.len() == rows.len(),
            forall|k: int| 0 <= k < rows.len() ==> (#[trigger] keys@[k])@ == lowercase(rows@[k]@.name),
    {
        let g = group_newest_first(&kept, ids[j]);
        proof {
            let w = ids@[j as int];
            let m = ks.map_values(workflow_of());
            lemma_first_occurrences(m);
            assert(ids@.contains(w));
            assert(m.contains(w));
            let i = choose|i: int| 0 <= i < m.len() && m[i] == w;
            assert(ks[i].workflow_id == w);
            ks.lemma_filter_contains(of_workflow(w), i);
            lemma_stable_sort_multiset(ks.filter(of_workflow(w)), newer_first());
        }
        let row = build_row(&g);
        assert(all_rows[j as int] == row@);
        proof {
            lemma_filter_step(all_rows, j as int, show);
        }
        let lname = to_lower(row.workflow_name.as_str());
        let key = chars_of(lname.as_str());
        assert(strings_view(exclude@).len() == exclude.len());
        if !matches_any(&key, &pats, Ghost(ex)) {
            let mut pos = rows.len();
            while pos > 0 && !lex_le_exec(&keys[pos - 1], &key)
                invariant
                    pos <= rows.len(),
                    keys.len() == rows.len(),
                    forall|k: int| 0 <= k < rows.len() ==> (#[trigger] keys@[k])@ == lowercase(rows@[k]@.name),
                    forall|k: int| pos <= k < rows.len() ==> !le(#[trigger] rows_view(rows@)[k], row@),
                    le == by_name(),
                    key@ == lowercase(row@.name),
                decreases pos,
            {
                pos = pos - 1;
            }
            proof {
                let v = rows_view(rows@);
                lemma_insert_at(v, row@, le, pos as int);
                let f = all_rows.take(j as int).filter(show);
                assert(f.push(row@).drop_last() =~= f);
                assert(rows_view(rows@.insert(pos as int, row)) =~= v.take(pos as int).push(row@) + v.skip(pos as int));
            }
            rows.insert(pos, row);
            keys.insert(pos, key);
        }
    }
    assert(all_rows.take(ids.len() as int) =~= all_rows);
    rows
}

/// Every run of the vector is well formed.
pub fn runs_well_formed(runs: &Vec<ApiRun>) -> (ok: bool)
    ensures
        ok == all_well_formed(runs@),
{
    let mut i: usize = 0;
    while i < runs.len()
        invariant
            i <= runs.len(),
            forall|j: int| 0 <= j < i ==> #[trigger] runs@[j].well_formed(),
        decreases runs.len() - i,
    {
        let r = &runs[i];
        let ok = -TIME_LIMIT <= r.created_at && r.created_at <= TIME_LIMIT && -TIME_LIMIT
            <= r.updated_at && r.updated_at <= TIME_LIMIT && match r.run_started_at {
            Some(t) => -TIME_LIMIT <= t && t <= TIME_LIMIT,
            None => true,
        };
        if !ok {
            assert(!runs@[i as int].well_formed());
            return false;
        }
        i = i + 1;
    }
    true
}

/// The message for a page holding a timestamp outside the calendar range.
pub open spec fn bad_time_message() -> Seq<char> {
    "run timestamps out of range"@
}

/// The error shown for a repo whose runs could not be fetched.
pub open spec fn fetch_error_message(repo: Seq<char>, cause: Seq<char>) -> Seq<char> {
    "fetching runs for "@ + repo + ": "@ + cause
}

/// The result for one repo, given what fetching its runs returned: the derived
/// rows, or the fetch error.
pub fn repo_result(
    repo: &str,
    fetched: Result<Vec<ApiRun>, String>,
    active: &Vec<u64>,
    exclude: &Vec<String>,
) -> (res: RepoResult)
    ensures
        res.repo@ == repo@,
        match fetched {
            Ok(runs) => if all_well_formed(runs@) {
                &&& res.error is None
                &&& rows_view(res.rows@) == derived_rows(runs@, active@, strings_view(exclude@))
            } else {
                &&& res.error matches Some(e) && e@ == bad_time_message()
                &&& res.rows@.len() == 0
            },
            Err(e) => {
                &&& res.error matches Some(m) && m@ == fetch_error_message(repo@, e@)
                &&& res.rows@.len() == 0
            },
        },
{
    match fetched {
        Ok(runs) => {
            if runs_well_formed(&runs) {
                RepoResult {
                    repo: String::from_str(repo),
                    rows: derive_rows(&runs, active, exclude),
                    error: None,
                }
            } else {
                RepoResult {
                    repo: String::from_str(repo),
                    rows: Vec::new(),
                    error: Some(String::from_str("run timestamps out of range")),
                }
            }
        },
        Err(e) => {
            let mut m = String::from_str("fetching runs for ");
            m.append(repo);
            m.append(": ");
            m.append(e.as_str());
            RepoResult { repo: String::from_str(repo), rows: Vec::new(), error: Some(m) }
        },
    }
}

/// The workflows whose runs are kept: the active ones when listing them
/// worked, else none, which keeps every run.
pub fn active_or_all(listed: Result<Vec<ApiWorkflow>, String>) -> (ids: Vec<u64>)
    ensures
        match listed {
            Ok(ws) => ids@ == ws@.filter(is_active_workflow()).map_values(workflow_id_of()),
            Err(_) => ids@.len() == 0,
        },
{
    match listed {
        Ok(ws) => active_ids(&ws),
        Err(_) => Vec::new(),
    }
}

// ── request routes ───────────────────────────────────────────────

/// A byte left as is in a URL query value.
pub open spec fn unreserved(b: u8) -> bool {
    (65 <= b <= 90) || (97 <= b <= 122) || (48 <= b <= 57) || b == 45 || b == 95 || b == 46 || b
        == 126
}

/// One byte of a URL-encoded value: itself, or `%` and two upper-case hex digits.
pub open spec fn encode_byte(b: u8) -> Seq<char> {
    if unreserved(b) {
        seq![b as char]
    } else {
        seq!['%'] + hex2(b)
    }
}

/// The URL encoding of a byte sequence.
pub open spec fn url_encoded(bs: Seq<u8>) -> Seq<char>
    decreases bs.len(),
{
    if bs.len() == 0 {
        Seq::empty()
    } else {
        url_encoded(bs.drop_last()) + encode_byte(bs.last())
    }
}

/// Minimal URL encoding of a branch name's UTF-8 bytes (handles `/`, spaces, `#`, etc.).
pub fn urlencode(s: &str) -> (r: String)
    ensures
        r@ == url_encoded(s.spec_bytes()),
{
    let bytes = s.as_bytes();
    let mut out = String::new();
    for i in 0..bytes.len()
        invariant
            bytes@ == s.spec_bytes(),
            out@ == url_encoded(bytes@.take(i as int)),
    {
        let b = bytes[i];
        let ghost before = out@;
        assert(bytes@.take(i + 1).drop_last() =~= bytes@.take(i as int));
        if (65 <= b && b <= 90) || (97 <= b && b <= 122) || (48 <= b && b <= 57) || b == 45 || b
            == 95 || b == 46 || b == 126 {
            push_char(&mut out, b as char);
            assert(out@ =~= before + encode_byte(b));
        } else {
            push_char(&mut out, '%');
            push_char(&mut out, hex_digit_char(b / 16));
            push_char(&mut out, hex_digit_char(b % 16));
            assert(out@ =~= before + encode_byte(b));
        }
    }
    assert(bytes@.take(bytes.len() as int) =~= bytes@);
    out
}

/// The value of an upper-case hex digit.
pub open spec fn hex_value(c: char) -> Option<nat> {
    if '0' <= c && c <= '9' {
        Some((c as int - 48) as nat)
    } else if 'A' <= c && c <= 'F' {
        Some((c as int - 55) as nat)
    } else {
        None
    }
}

/// Percent-decoding of text that holds only unreserved ASCII characters and
/// `%` followed by two upper-case hex digits; `None` for any other text.
pub open spec fn url_decoded(cs: Seq<char>) -> Option<Seq<u8>>
    decreases cs.len(),
{
    if cs.len() == 0 {
        Some(Seq::empty())
    } else if cs[0] == '%' {
        if cs.len() >= 3 && hex_value(cs[1]) is Some && hex_value(cs[2]) is Some {
            match url_decoded(cs.skip(3)) {
                Some(rest) => Some(seq![(hex_value(cs[1])->0 * 16 + hex_value(cs[2])->0) as u8] + rest),
                None => None,
            }
        } else {
            None
        }
    } else if (cs[0] as int) < 128 && unreserved(cs[0] as u8) {
        match url_decoded(cs.drop_first()) {
            Some(rest) => Some(seq![cs[0] as u8] + rest),
            None => None,
        }
    } else {
        None
    }
}

/// How many characters the encoding of `bs` takes: one per unreserved byte,
/// three per other byte.
pub open spec fn encoded_len(bs: Seq<u8>) -> nat
    decreases bs.len(),
{
    if bs.len() == 0 {
        0
    } else {
        encoded_len(bs.drop_last()) + if unreserved(bs.last()) {
            1nat
        } else {
            3nat
        }
    }
}

proof fn lemma_decoded_append(x: Seq<char>, y: Seq<char>)
    requires
        url_decoded(x) is Some,
        url_decoded(y) is Some,
    ensures
        url_decoded(x + y) == Some(url_decoded(x)->0 + url_decoded(y)->0),
    decreases x.len(),
{
    if x.len() == 0 {
        assert(x + y =~= y);
        assert(url_decoded(x)->0 + url_decoded(y)->0 =~= url_decoded(y)->0);
    } else if x[0] == '%' {
        lemma_decoded_append(x.skip(3), y);
        assert((x + y).skip(3) =~= x.skip(3) + y);
        assert((x + y)[1] == x[1] && (x + y)[2] == x[2]);
        let b = seq![(hex_value(x[1])->0 * 16 + hex_value(x[2])->0) as u8];
        assert(b + (url_decoded(x.skip(3))->0 + url_decoded(y)->0) =~= (b + url_decoded(x.skip(3))->0)
            + url_decoded(y)->0);
    } else {
        lemma_decoded_append(x.drop_first(), y);
        assert((x + y).drop_first() =~= x.drop_first() + y);
        let b = seq![x[0] as u8];
        assert(b + (url_decoded(x.drop_first())->0 + url_decoded(y)->0) =~= (b + url_decoded(
            x.drop_first(),
        )->0) + url_decoded(y)->0);
    }
}

proof fn lemma_hex_digit_value(d: nat)
    requires
        d < 16,
    ensures
        hex_value(hex_digit(d)) == Some(d),
{
}

proof fn lemma_decode_byte(b: u8)
    ensures
        url_decoded(encode_byte(b)) == Some(seq![b]),
{
    let e = encode_byte(b);
    assert(url_decoded(Seq::<char>::empty()) == Some(Seq::<u8>::empty()));
    if unreserved(b) {
        assert(e.drop_first() =~= Seq::<char>::empty());
        assert((b as char) as int == b as int);
        assert(e[0] != '%');
        assert((b as char) as u8 == b);
        assert(seq![b] + Seq::<u8>::empty() =~= seq![b]);
    } else {
        lemma_hex_digit_value((b / 16) as nat);
        lemma_hex_digit_value((b % 16) as nat);
        assert(e.skip(3) =~= Seq::<char>::empty());
        assert(e[1] == hex_digit((b / 16) as nat));
        assert(e[2] == hex_digit((b % 16) as nat));
        assert(((b / 16) * 16 + b % 16) as u8 == b);
        assert(seq![b] + Seq::<u8>::empty() =~= seq![b]);
    }
}

/// Text of unreserved ASCII characters, where each `%` is followed by two
/// upper-case hex digits.
pub open spec fn url_safe(cs: Seq<char>) -> bool {
    forall|i: int|
        0 <= i < cs.len() ==> {
            &&& (#[trigger] cs[i] == '%' ==> i + 2 < cs.len() && hex_value(cs[i + 1]) is Some
                && hex_value(cs[i + 2]) is Some)
            &&& (cs[i] != '%' ==> (cs[i] as int) < 128 && unreserved(cs[i] as u8))
        }
}

proof fn lemma_decodable_is_safe(cs: Seq<char>)
    requires
        url_decoded(cs) is Some,
    ensures
        url_safe(cs),
    decreases cs.len(),
{
    if cs.len() > 0 {
        if cs[0] == '%' {
            let r = cs.skip(3);
            lemma_decodable_is_safe(r);
            assert forall|i: int| 0 <= i < cs.len() implies {
                &&& (#[trigger] cs[i] == '%' ==> i + 2 < cs.len() && hex_value(cs[i + 1]) is Some
                    && hex_value(cs[i + 2]) is Some)
                &&& (cs[i] != '%' ==> (cs[i] as int) < 128 && unreserved(cs[i] as u8))
            } by {
                if i >= 3 {
                    assert(cs[i] == r[i - 3]);
                    if i + 2 < cs.len() {
                        assert(cs[i + 1] == r[i - 2] && cs[i + 2] == r[i - 1]);
                    } else {
                        assert(r[i - 3] == '%' ==> i - 3 + 2 < r.len());
                    }
                } else if i > 0 {
                    assert(hex_value(cs[i]) is Some);
                }
            }
        } else {
            let r = cs.drop_first();
            lemma_decodable_is_safe(r);
            assert forall|i: int| 0 <= i < cs.len() implies {
                &&& (#[trigger] cs[i] == '%' ==> i + 2 < cs.len() && hex_value(cs[i + 1]) is Some
                    && hex_value(cs[i + 2]) is Some)
                &&& (cs[i] != '%' ==> (cs[i] as int) < 128 && unreserved(cs[i] as u8))
            } by {
                if i > 0 {
                    assert(cs[i] == r[i - 1]);
                    if i + 2 < cs.len() {
                        assert(cs[i + 1] == r[i] && cs[i + 2] == r[i + 1]);
                    } else {
                        assert(r[i - 1] == '%' ==> i - 1 + 2 < r.len());
                    }
                }
            }
        }
    }
}

/// The encoding can be undone: percent-decoding it gives back the bytes; it
/// holds only unreserved ASCII characters, each `%` followed by two
/// upper-case hex digits; and it is one character per unreserved byte and
/// three per other.
pub proof fn law_urlencode_decodes(bs: Seq<u8>)
    ensures
        url_decoded(url_encoded(bs)) == Some(bs),
        url_safe(url_encoded(bs)),
        url_encoded(bs).len() == encoded_len(bs),
{
    lemma_urlencode_decodes(bs);
    lemma_decodable_is_safe(url_encoded(bs));
}

proof fn lemma_urlencode_decodes(bs: Seq<u8>)
    ensures
        url_decoded(url_encoded(bs)) == Some(bs),
        url_encoded(bs).len() == encoded_len(bs),
    decreases bs.len(),
{
    if bs.len() > 0 {
        lemma_urlencode_decodes(bs.drop_last());
        lemma_decode_byte(bs.last());
        lemma_decoded_append(url_encoded(bs.drop_last()), encode_byte(bs.last()));
        assert(bs.drop_last() + seq![bs.last()] =~= bs);
    }
}

/// The route for one page of a branch's runs.
pub open spec fn runs_route_text(repo: Seq<char>, branch_bytes: Seq<u8>) -> Seq<char> {
    "/repos/"@ + repo + "/actions/runs?branch="@ + url_encoded(branch_bytes) + "&per_page="@
        + dec(RUN_PAGE_SIZE as nat)
}

/// The route for one page of a branch's runs.
pub fn runs_route(repo: &str, branch: &str) -> (r: String)
    ensures
        r@ == runs_route_text(repo@, branch.spec_bytes()),
{
    let mut r = String::from_str("/repos/");
    r.append(repo);
    r.append("/actions/runs?branch=");
    let b = urlencode(branch);
    r.append(b.as_str());
    r.append("&per_page=");
    push_dec(&mut r, RUN_PAGE_SIZE as u128);
    r
}

/// The route listing a repo's workflows.
pub open spec fn workflows_route_text(repo: Seq<char>) -> Seq<char> {
    "/repos/"@ + repo + "/actions/workflows?per_page="@ + dec(RUN_PAGE_SIZE as nat)
}

/// The route listing a repo's workflows.
pub fn workflows_route(repo: &str) -> (r: String)
    ensures
        r@ == workflows_route_text(repo@),
{
    let mut r = String::from_str("/repos/");
    r.append(repo);
    r.append("/actions/workflows?per_page=");
    push_dec(&mut r, RUN_PAGE_SIZE as u128);
    r
}

// ── tokens and re-runs ──────────────────────────────────────────

/// A token from an environment variable or `gh auth token`: the trimmed
/// text, or nothing when that is empty.
pub fn token_from(raw: &str) -> (t: Option<String>)
    ensures
        match t {
            Some(tok) => trimmed(raw@).len() > 0 && tok@ == trimmed(raw@),
            None => trimmed(raw@).len() == 0,
        },
{
    let t = trim(raw);
    if t.as_str().unicode_len() == 0 {
        None
    } else {
        Some(t)
    }
}

/// The token from the environment: `GH_TOKEN` when it holds more than
/// blanks, else `GITHUB_TOKEN`, trimmed.
pub open spec fn env_token(gh: Option<Seq<char>>, github: Option<Seq<char>>) -> Option<Seq<char>> {
    if gh matches Some(t) && trimmed(t).len() > 0 {
        Some(trimmed(gh->0))
    } else if github matches Some(t) && trimmed(t).len() > 0 {
        Some(trimmed(github->0))
    } else {
        None
    }
}

/// The characters of an optional string slice.
pub open spec fn opt_str_chars(o: Option<&str>) -> Option<Seq<char>> {
    match o {
        Some(s) => Some(s@),
        None => None,
    }
}

/// The token from the values of `GH_TOKEN` and `GITHUB_TOKEN`, if either holds one.
pub fn token_from_env(gh: Option<&str>, github: Option<&str>) -> (t: Option<String>)
    ensures
        opt_chars(t) == env_token(opt_str_chars(gh), opt_str_chars(github)),
{
    if let Some(v) = gh {
        if let Some(t) = token_from(v) {
            return Some(t);
        }
    }
    if let Some(v) = github {
        if let Some(t) = token_from(v) {
            return Some(t);
        }
    }
    None
}

/// The token to use: the one `gh auth token` printed (given its output when
/// it succeeded), else the one from the environment.
pub open spec fn chosen_token(gh_output: Option<Seq<char>>, gh: Option<Seq<char>>, github: Option<Seq<char>>) -> Option<
    Seq<char>,
> {
    if gh_output matches Some(out) && trimmed(out).len() > 0 {
        Some(trimmed(gh_output->0))
    } else {
        env_token(gh, github)
    }
}

/// The token to use, from the output of `gh auth token` first, then from the
/// values of `GH_TOKEN` and `GITHUB_TOKEN`.
pub fn choose_token(gh_output: Option<&str>, gh: Option<&str>, github: Option<&str>) -> (t: Option<String>)
    ensures
        opt_chars(t) == chosen_token(opt_str_chars(gh_output), opt_str_chars(gh), opt_str_chars(github)),
{
    if let Some(out) = gh_output {
        if let Some(t) = token_from(out) {
            return Some(t);
        }
    }
    token_from_env(gh, github)
}

/// The API route that re-runs a workflow run.
pub open spec fn rerun_route_text(repo: Seq<char>, run_id: u64) -> Seq<char> {
    "repos/"@ + repo + "/actions/runs/"@ + dec(run_id as nat) + "/rerun"@
}

/// The API route that re-runs a workflow run.
pub fn rerun_route(repo: &str, run_id: u64) -> (r: String)
    ensures
        r@ == rerun_route_text(repo@, run_id),
{
    let mut r = String::from_str("repos/");
    r.append(repo);
    r.append("/actions/runs/");
    push_dec(&mut r, run_id as u128);
    r.append("/rerun");
    r
}

/// The first non-blank line of `lines`, trimmed.
pub open spec fn first_nonblank(lines: Seq<Seq<char>>) -> Option<Seq<char>>
    decreases lines.len(),
{
    if lines.len() == 0 {
        None
    } else if trimmed(lines[0]).len() > 0 {
        Some(trimmed(lines[0]))
    } else {
        first_nonblank(lines.drop_first())
    }
}

/// Why a re-run failed, from the error output of `gh api`: its first
/// non-blank line, trimmed, or `gh api failed` when there is none.
pub open spec fn rerun_error_text(stderr: Seq<char>) -> Seq<char> {
    match first_nonblank(split_lines(stderr)) {
        Some(l) => l,
        None => "gh api failed"@,
    }
}

proof fn lemma_split_lines_step(s: Seq<char>, i: int)
    requires
        0 <= i < s.len(),
    ensures
        split_lines(s.take(i + 1)) == (if s[i] == '\n' {
            split_lines(s.take(i)).push(Seq::empty())
        } else {
            let p = split_lines(s.take(i));
            p.update(p.len() - 1, p.last().push(s[i]))
        }),
{
    assert(s.take(i + 1).drop_last() =~= s.take(i));
}

proof fn lemma_first_nonblank_append(a: Seq<Seq<char>>, b: Seq<Seq<char>>)
    requires
        first_nonblank(a) is None,
    ensures
        first_nonblank(a + b) == first_nonblank(b),
    decreases a.len(),
{
    if a.len() > 0 {
        lemma_first_nonblank_append(a.drop_first(), b);
        assert((a + b).drop_first() =~= a.drop_first() + b);
    } else {
        assert(a + b =~= b);
    }
}

/// Why a re-run failed, from the error output of `gh api`.
pub fn rerun_error(stderr: &str) -> (msg: String)
    ensures
        msg@ == rerun_error_text(stderr@),
{
    let t = chars_of(stderr);
    let mut cur: Vec<char> = Vec::new();
    let ghost mut done: Seq<Seq<char>> = Seq::empty();
    for i in 0..t.len()
        invariant
            split_lines(t@.take(i as int)) == done.push(cur@),
            first_nonblank(done) is None,
            t@ == stderr@,
    {
        proof {
            lemma_split_lines_step(t@, i as int);
        }
        if t[i] == '\n' {
            let line = trim_chars(&cur);
            if line.len() > 0 {
                proof {
                    let all = split_lines(t@);
                    let n = done.len() as int;
                    lemma_split_prefix(t@, i as int);
                    assert(split_lines(t@.take(i as int))[n] == cur@);
                    assert forall|k: int| 0 <= k < n implies all[k] == done[k] by {
                        assert(split_lines(t@.take(i as int))[k] == done[k]);
                    }
                    assert(all =~= done + all.skip(n));
                    lemma_first_nonblank_append(done, all.skip(n));
                    assert(all.skip(n)[0] == cur@);
                    assert(trimmed(cur@) == line@);
                    assert(first_nonblank(all.skip(n)) == Some(trimmed(cur@)));
                    assert(first_nonblank(all) == Some(trimmed(cur@)));
                    assert(rerun_error_text(stderr@) == line@);
                }
                return string_of(&line);
            }
            proof {
                lemma_first_nonblank_append(done, seq![cur@]);
                assert(seq![cur@].drop_first() =~= Seq::<Seq<char>>::empty());
                assert(seq![cur@][0] == cur@);
                assert(first_nonblank(Seq::<Seq<char>>::empty()) is None);
                assert(first_nonblank(seq![cur@]) is None);
                assert(done + seq![cur@] =~= done.push(cur@));
                done = done.push(cur@);
            }
            cur = Vec::new();
        } else {
            cur.push(t[i]);
        }
    }
    assert(t@.take(t.len() as int) =~= t@);
    let line = trim_chars(&cur);
    proof {
        lemma_first_nonblank_append(done, seq![cur@]);
        assert(seq![cur@].drop_first() =~= Seq::<Seq<char>>::empty());
        assert(first_nonblank(Seq::<Seq<char>>::empty()) is None);
        assert(seq![cur@][0] == cur@);
        assert(done + seq![cur@] =~= done.push(cur@));
        assert(split_lines(t@) == done.push(cur@));
    }
    if line.len() > 0 {
        string_of(&line)
    } else {
        String::from_str("gh api failed")
    }
}

/// The lines of a text extend the lines of any prefix ending at a newline.
proof fn lemma_split_prefix(s: Seq<char>, i: int)
    requires
        0 <= i < s.len(),
        s[i] == '\n',
    ensures
        split_lines(s).len() >= split_lines(s.take(i)).len() + 1,
        forall|k: int| 0 <= k < split_lines(s.take(i)).len() ==> split_lines(s)[k] == #[trigger] split_lines(s.take(i))[k],
    decreases s.len(),
{
    if s.len() == i + 1 {
        assert(s.drop_last() =~= s.take(i));
        crate::config::lemma_split_lines_nonempty(s.take(i));
    } else {
        lemma_split_prefix(s.drop_last(), i);
        assert(s.drop_last().take(i) =~= s.take(i));
        crate::config::lemma_split_lines_nonempty(s.drop_last());
    }
}

// ── laws ─────────────────────────────────────────────────────────

/// Ordering by lower-cased name is a total preorder.
pub proof fn lemma_by_name_total_preorder()
    ensures
        total_preorder(by_name()),
{
    assert forall|a: RowView, b: RowView| #[trigger] by_name()(a, b) || by_name()(b, a) by {
        lemma_lex_total(lowercase(a.name), lowercase(b.name));
    }
    assert forall|a: RowView, b: RowView, c: RowView|
        #[trigger] by_name()(a, b) && #[trigger] by_name()(b, c) implies by_name()(a, c) by {
        lemma_lex_trans(lowercase(a.name), lowercase(b.name), lowercase(c.name));
    }
}

/// The rows come out sorted by lower-cased workflow name.
pub proof fn law_rows_sorted_by_name(runs: Seq<ApiRun>, active: Seq<u64>, exclude: Seq<Seq<char>>)
    ensures
        forall|i: int, j: int|
            0 <= i < j < derived_rows(runs, active, exclude).len() ==> lex_le(
                lowercase(derived_rows(runs, active, exclude)[i].name),
                lowercase(derived_rows(runs, active, exclude)[j].name),
            ),
{
    lemma_by_name_total_preorder();
    lemma_stable_sort_sorted(rows_of(runs.filter(keeps(active))).filter(shown(exclude)), by_name());
}

/// No row shown has a name that matches an exclusion pattern.
pub proof fn law_excluded_rows_hidden(runs: Seq<ApiRun>, active: Seq<u64>, exclude: Seq<Seq<char>>, i: int)
    requires
        0 <= i < derived_rows(runs, active, exclude).len(),
    ensures
        !is_excluded(derived_rows(runs, active, exclude)[i].name, exclude),
{
    let f = rows_of(runs.filter(keeps(active))).filter(shown(exclude));
    let d = derived_rows(runs, active, exclude);
    lemma_stable_sort_multiset(f, by_name());
    d.to_multiset_ensures();
    f.to_multiset_ensures();
    assert(d.contains(d[i]));
    assert(d.to_multiset().count(d[i]) > 0);
    assert(f.contains(d[i]));
    let k = choose|k: int| 0 <= k < f.len() && f[k] == d[i];
    rows_of(runs.filter(keeps(active))).lemma_filter_pred(shown(exclude), k);
}

/// Newest first is a total preorder.
pub proof fn lemma_newer_first_total_preorder()
    ensures
        total_preorder(newer_first()),
{
}

/// A workflow's row shows its latest run: no run of that workflow started later.
pub proof fn law_row_shows_latest_run(runs: Seq<ApiRun>, w: u64, r: ApiRun)
    requires
        runs.contains(r),
        r.workflow_id == w,
    ensures
        row_of(group_of(runs, w)).started_at matches Some(t) && r.start() <= t,
{
    let f = runs.filter(of_workflow(w));
    let g = group_of(runs, w);
    let i = choose|i: int| 0 <= i < runs.len() && runs[i] == r;
    runs.lemma_filter_contains(of_workflow(w), i);
    lemma_stable_sort_multiset(f, newer_first());
    lemma_newer_first_total_preorder();
    lemma_stable_sort_sorted(f, newer_first());
    g.to_multiset_ensures();
    f.to_multiset_ensures();
    assert(f.to_multiset().count(r) > 0);
    assert(g.contains(r));
    let k = choose|k: int| 0 <= k < g.len() && g[k] == r;
    if k > 0 {
        assert(newer_first()(g[0], g[k]));
    }
}

proof fn lemma_failing_streak(g: Seq<ApiRun>)
    ensures
        failing_streak(g) <= g.len(),
        forall|i: int| 0 <= i < failing_streak(g) ==> run_dot(#[trigger] g[i]) == Dot::Fail,
        failing_streak(g) < g.len() ==> run_dot(g[failing_streak(g) as int]) != Dot::Fail,
    decreases g.len(),
{
    if g.len() > 0 && run_dot(g[0]) == Dot::Fail {
        let t = g.drop_first();
        lemma_failing_streak(t);
        assert forall|i: int| 0 <= i < failing_streak(g) implies run_dot(#[trigger] g[i]) == Dot::Fail by {
            if i > 0 {
                assert(g[i] == t[i - 1]);
            }
        }
        if failing_streak(g) < g.len() {
            assert(g[failing_streak(g) as int] == t[failing_streak(t) as int]);
        }
    }
}

/// The fail-since commit is where the current streak of failures began: the
/// run that has it failed, every newer run failed too, and the run before it
/// (if the page has one) did not.
pub proof fn law_fail_since_starts_the_streak(g: Seq<ApiRun>)
    requires
        fail_since(g) is Some,
    ensures
        exists|n: int|
            #![trigger g[n - 1]]
            0 < n <= g.len() && fail_since(g) == Some(g[n - 1].head_sha@) && (forall|i: int|
                0 <= i < n ==> run_dot(#[trigger] g[i]) == Dot::Fail) && (n < g.len() ==> run_dot(g[n])
                != Dot::Fail),
{
    lemma_failing_streak(g);
    let n = failing_streak(g) as int;
    assert(0 < n <= g.len() && fail_since(g) == Some(g[n - 1].head_sha@));
}

proof fn lemma_estimate(g: Seq<ApiRun>)
    ensures
        estimate(g) is Some ==> exists|k: int|
            0 <= k < g.len() && opt_chars(#[trigger] g[k].conclusion) == Some("success"@) && (forall|i: int|
                0 <= i < k ==> opt_chars(#[trigger] g[i].conclusion) != Some("success"@)) && estimate(g)
                == Some(
                (if g[k].updated_at - g[k].start() > 0 {
                    g[k].updated_at - g[k].start()
                } else {
                    0
                }) as i64,
            ),
        estimate(g) is None ==> forall|i: int|
            0 <= i < g.len() ==> opt_chars(#[trigger] g[i].conclusion) != Some("success"@),
    decreases g.len(),
{
    if g.len() > 0 && opt_chars(g[0].conclusion) != Some("success"@) {
        let t = g.drop_first();
        lemma_estimate(t);
        if estimate(g) is Some {
            let k = choose|k: int|
                0 <= k < t.len() && opt_chars(#[trigger] t[k].conclusion) == Some("success"@) && (forall|i: int|
                    0 <= i < k ==> opt_chars(#[trigger] t[i].conclusion) != Some("success"@)) && estimate(t)
                    == Some(
                    (if t[k].updated_at - t[k].start() > 0 {
                        t[k].updated_at - t[k].start()
                    } else {
                        0
                    }) as i64,
                );
            assert(g[k + 1] == t[k]);
            assert forall|i: int| 0 <= i < k + 1 implies opt_chars(#[trigger] g[i].conclusion) != Some("success"@) by {
                if i > 0 {
                    assert(g[i] == t[i - 1]);
                }
            }
        } else {
            assert forall|i: int| 0 <= i < g.len() implies opt_chars(#[trigger] g[i].conclusion) != Some("success"@) by {
                if i > 0 {
                    assert(g[i] == t[i - 1]);
                }
            }
        }
    } else if g.len() > 0 {
        assert(opt_chars(g[0].conclusion) == Some("success"@));
    }
}

/// The ETA is the wall-clock duration (never negative) of the newest
/// successful run of the group; there is none when no run succeeded.
pub proof fn law_eta_from_latest_success(g: Seq<ApiRun>)
    ensures
        estimate(g) is Some ==> exists|k: int|
            0 <= k < g.len() && opt_chars(#[trigger] g[k].conclusion) == Some("success"@) && (forall|i: int|
                0 <= i < k ==> opt_chars(#[trigger] g[i].conclusion) != Some("success"@)) && estimate(g)
                == Some(
                (if g[k].updated_at - g[k].start() > 0 {
                    g[k].updated_at - g[k].start()
                } else {
                    0
                }) as i64,
            ),
        estimate(g) is None <==> forall|i: int|
            0 <= i < g.len() ==> opt_chars(#[trigger] g[i].conclusion) != Some("success"@),
{
    lemma_estimate(g);
}

/// One row per workflow: the workflows of the rows are distinct, and they are
/// exactly the workflows that have a run.
pub proof fn law_one_row_per_workflow(runs: Seq<ApiRun>, r: ApiRun)
    ensures
        rows_of(runs).len() == workflow_ids(runs).len(),
        workflow_ids(runs).no_duplicates(),
        runs.contains(r) ==> workflow_ids(runs).contains(r.workflow_id),
        forall|w: u64| #[trigger] workflow_ids(runs).contains(w) ==> exists|i: int|
            0 <= i < runs.len() && runs[i].workflow_id == w,
{
    let ws = runs.map_values(workflow_of());
    lemma_first_occurrences(ws);
    if runs.contains(r) {
        let i = choose|i: int| 0 <= i < runs.len() && runs[i] == r;
        assert(ws[i] == r.workflow_id);
        assert(ws.contains(r.workflow_id));
    }
    assert forall|w: u64| #[trigger] workflow_ids(runs).contains(w) implies exists|i: int|
        0 <= i < runs.len() && runs[i].workflow_id == w by {
        assert(ws.contains(w));
        let j = choose|j: int| 0 <= j < ws.len() && ws[j] == w;
        assert(runs[j].workflow_id == w);
    }
}

/// The recent-history column never shows more than `RECENT_COUNT` runs.
pub proof fn law_recent_bounded(g: Seq<ApiRun>)
    ensures
        recent_of(g).len() <= RECENT_COUNT,
        recent_of(g).len() <= g.len(),
{
}

/// The recent column shows the newest runs, newest first: as many as the
/// group has, up to `RECENT_COUNT`, and the `i`-th dot is the dot of the
/// `i`-th newest run.
pub proof fn law_recent_shows_newest_runs(g: Seq<ApiRun>, i: int)
    ensures
        recent_of(g).len() == (if g.len() < 6 {
            g.len()
        } else {
            6
        }),
        0 <= i < recent_of(g).len() ==> recent_of(g)[i] == run_dot(g[i]),
{
}

/// A run's dot is green exactly for a completed success and red exactly for a
/// completed failure or time-out; a run still going is active.
pub proof fn law_dot_classes(r: ApiRun)
    ensures
        run_dot(r) == Dot::Pass <==> (opt_chars(r.status) == Some("completed"@) && opt_chars(
            r.conclusion,
        ) == Some("success"@)),
        run_dot(r) == Dot::Fail <==> (opt_chars(r.status) == Some("completed"@) && (opt_chars(
            r.conclusion,
        ) == Some("failure"@) || opt_chars(r.conclusion) == Some("timed_out"@))),
        (opt_chars(r.status) == Some("in_progress"@) || opt_chars(r.status) == Some("queued"@)
            || opt_chars(r.status) == Some("pending"@)) ==> run_dot(r) == Dot::Active,
{
    reveal_strlit("completed");
    reveal_strlit("success");
    reveal_strlit("failure");
    reveal_strlit("timed_out");
    reveal_strlit("in_progress");
    reveal_strlit("queued");
    reveal_strlit("pending");
    assert("success"@[0] != "failure"@[0]);
    assert("success"@[0] != "timed_out"@[0]);
    assert("completed"@[0] != "in_progress"@[0]);
    assert("completed"@[0] != "queued"@[0]);
    assert("completed"@[0] != "pending"@[0]);
}

/// When the newest runs failed in a row, down to a run that did not fail (or
/// to the oldest run of the page), the fail-since commit is that of the oldest
/// run in the row of failures, whenever it has one; a workflow that has just
/// broken has its own commit as fail-since.
pub proof fn law_fail_since_of_a_failing_streak(g: Seq<ApiRun>, n: int)
    requires
        0 < n <= g.len(),
        forall|i: int| 0 <= i < n ==> run_dot(#[trigger] g[i]) == Dot::Fail,
        n < g.len() ==> run_dot(g[n]) != Dot::Fail,
        g[n - 1].head_sha@.len() > 0,
    ensures
        fail_since(g) == Some(g[n - 1].head_sha@),
{
    lemma_failing_streak(g);
    let m = failing_streak(g) as int;
    if m < n {
        assert(run_dot(g[m]) == Dot::Fail);
    }
    if m > n {
        assert(run_dot(g[n]) == Dot::Fail);
    }
}

} // verus!
