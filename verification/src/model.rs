//! The data the dashboard shows: one row per workflow, grouped per repo.

use vstd::prelude::*;

use crate::text::str_eq;

verus! {

/// The status shown for a workflow's latest run.
#[derive(Clone, Copy, Debug, PartialEq, Eq, Structural)]
pub enum Badge {
    Pass,
    Fail,
    Cancelled,
    Skipped,
    Running,
    Queued,
    Pending,
    Unknown,
}

/// One entry of the recent-history column.
#[derive(Clone, Copy, Debug, PartialEq, Eq, Structural)]
pub enum Dot {
    Pass,
    Fail,
    Active,
    Other,
}

/// The characters of an optional string.
pub open spec fn opt_chars(o: Option<String>) -> Option<Seq<char>> {
    match o {
        Some(s) => Some(s@),
        None => None,
    }
}

/// The badge for a run with this status and conclusion.
pub open spec fn badge_of(status: Seq<char>, conclusion: Option<Seq<char>>) -> Badge {
    if status == "completed"@ {
        if conclusion == Some("success"@) {
            Badge::Pass
        } else if conclusion == Some("failure"@) || conclusion == Some("timed_out"@) {
            Badge::Fail
        } else if conclusion == Some("cancelled"@) {
            Badge::Cancelled
        } else if conclusion == Some("skipped"@) {
            Badge::Skipped
        } else {
            Badge::Unknown
        }
    } else if status == "in_progress"@ {
        Badge::Running
    } else if status == "queued"@ {
        Badge::Queued
    } else if status == "pending"@ || status == "waiting"@ || status == "requested"@ {
        Badge::Pending
    } else {
        Badge::Unknown
    }
}

/// The recent-history dot for a run with this status and conclusion.
pub open spec fn dot_of(status: Option<Seq<char>>, conclusion: Option<Seq<char>>) -> Dot {
    if status == Some("completed"@) && conclusion == Some("success"@) {
        Dot::Pass
    } else if status == Some("completed"@) && (conclusion == Some("failure"@) || conclusion
        == Some("timed_out"@)) {
        Dot::Fail
    } else if status == Some("in_progress"@) || status == Some("queued"@) || status == Some(
        "pending"@,
    ) {
        Dot::Active
    } else {
        Dot::Other
    }
}

fn opt_eq(o: &Option<String>, lit: &str) -> (r: bool)
    ensures
        r == (opt_chars(*o) == Some(lit@)),
{
    match o {
        Some(s) => str_eq(s.as_str(), lit),
        None => false,
    }
}

impl Badge {
    /// The badge of a run still in flight.
    pub open spec fn active(self) -> bool {
        self == Badge::Running || self == Badge::Queued || self == Badge::Pending
    }

    /// The text shown for the badge.
    pub open spec fn text(self) -> Seq<char> {
        match self {
            Badge::Pass => "pass"@,
            Badge::Fail => "FAIL"@,
            Badge::Cancelled => "cancel"@,
            Badge::Skipped => "skip"@,
            Badge::Running => "running"@,
            Badge::Queued => "queued"@,
            Badge::Pending => "pending"@,
            Badge::Unknown => "unknown"@,
        }
    }

    pub fn is_active(&self) -> (r: bool)
        ensures
            r == self.active(),
    {
        match self {
            Badge::Running | Badge::Queued | Badge::Pending => true,
            _ => false,
        }
    }

    pub fn label(&self) -> (r: &'static str)
        ensures
            r@ == self.text(),
    {
        match self {
            Badge::Pass => "pass",
            Badge::Fail => "FAIL",
            Badge::Cancelled => "cancel",
            Badge::Skipped => "skip",
            Badge::Running => "running",
            Badge::Queued => "queued",
            Badge::Pending => "pending",
            Badge::Unknown => "unknown",
        }
    }

    /// The badge for a run's status and conclusion.
    pub fn from_run(status: &str, conclusion: &Option<String>) -> (b: Badge)
        ensures
            b == badge_of(status@, opt_chars(*conclusion)),
    {
        if str_eq(status, "completed") {
            if opt_eq(conclusion, "success") {
                Badge::Pass
            } else if opt_eq(conclusion, "failure") || opt_eq(conclusion, "timed_out") {
                Badge::Fail
            } else if opt_eq(conclusion, "cancelled") {
                Badge::Cancelled
            } else if opt_eq(conclusion, "skipped") {
                Badge::Skipped
            } else {
                Badge::Unknown
            }
        } else if str_eq(status, "in_progress") {
            Badge::Running
        } else if str_eq(status, "queued") {
            Badge::Queued
        } else if str_eq(status, "pending") || str_eq(status, "waiting") || str_eq(
            status,
            "requested",
        ) {
            Badge::Pending
        } else {
            Badge::Unknown
        }
    }
}

impl Dot {
    /// The dot for a run's status and conclusion.
    pub fn from_run(status: &Option<String>, conclusion: &Option<String>) -> (d: Dot)
        ensures
            d == dot_of(opt_chars(*status), opt_chars(*conclusion)),
    {
        if opt_eq(status, "completed") && opt_eq(conclusion, "success") {
            Dot::Pass
        } else if opt_eq(status, "completed") && (opt_eq(conclusion, "failure") || opt_eq(
            conclusion,
            "timed_out",
        )) {
            Dot::Fail
        } else if opt_eq(status, "in_progress") || opt_eq(status, "queued") || opt_eq(
            status,
            "pending",
        ) {
            Dot::Active
        } else {
            Dot::Other
        }
    }
}

/// One workflow's latest state on the watched branch.
pub struct WorkflowRow {
    pub workflow_name: String,
    pub badge: Badge,
    /// Start of the latest run, seconds since the Unix epoch.
    pub started_at: Option<i64>,
    /// End of the latest run (only once completed), seconds since the Unix epoch.
    pub finished_at: Option<i64>,
    /// Duration of the most recent successful run, in seconds.
    pub eta_total_secs: Option<i64>,
    pub head_sha: Option<String>,
    pub run_id: u64,
    /// The most recent runs, newest first.
    pub recent: Vec<Dot>,
    /// The commit the current run of consecutive failures started on.
    pub fail_since_sha: Option<String>,
}

/// A `WorkflowRow` with its strings taken as characters.
pub struct RowView {
    pub name: Seq<char>,
    pub badge: Badge,
    pub started_at: Option<i64>,
    pub finished_at: Option<i64>,
    pub eta: Option<i64>,
    pub head_sha: Option<Seq<char>>,
    pub run_id: u64,
    pub recent: Seq<Dot>,
    pub fail_since: Option<Seq<char>>,
}

impl View for WorkflowRow {
    type V = RowView;

    open spec fn view(&self) -> RowView {
        RowView {
            name: self.workflow_name@,
            badge: self.badge,
            started_at: self.started_at,
            finished_at: self.finished_at,
            eta: self.eta_total_secs,
            head_sha: opt_chars(self.head_sha),
            run_id: self.run_id,
            recent: self.recent@,
            fail_since: opt_chars(self.fail_since_sha),
        }
    }
}

/// The rows of a sequence, as views.
pub open spec fn rows_view(rows: Seq<WorkflowRow>) -> Seq<RowView> {
    rows.map_values(|r: WorkflowRow| r@)
}

/// The strings of a sequence, as characters.
pub open spec fn strings_view(v: Seq<String>) -> Seq<Seq<char>> {
    v.map_values(|s: String| s@)
}

/// What one repo produced: its rows, or the error that stopped the fetch.
pub struct RepoResult {
    pub repo: String,
    pub rows: Vec<WorkflowRow>,
    pub error: Option<String>,
}

/// A `RepoResult` with its strings taken as characters.
pub struct RepoView {
    pub repo: Seq<char>,
    pub rows: Seq<RowView>,
    pub error: Option<Seq<char>>,
}

impl View for RepoResult {
    type V = RepoView;

    open spec fn view(&self) -> RepoView {
        RepoView { repo: self.repo@, rows: rows_view(self.rows@), error: opt_chars(self.error) }
    }
}

/// The results of a sequence, as views.
pub open spec fn results_view(rs: Seq<RepoResult>) -> Seq<RepoView> {
    rs.map_values(|r: RepoResult| r@)
}

/// Whether any repo failed to fetch.
pub fn any_fetch_failed(results: &Vec<RepoResult>) -> (failed: bool)
    ensures
        failed == exists|i: int| 0 <= i < results.len() && (#[trigger] results@[i]).error is Some,
{
    let mut i: usize = 0;
    while i < results.len()
        invariant
            i <= results.len(),
            forall|j: int| 0 <= j < i ==> (#[trigger] results@[j]).error is None,
        decreases results.len() - i,
    {
        if results[i].error.is_some() {
            return true;
        }
        i = i + 1;
    }
    false
}

} // verus!
