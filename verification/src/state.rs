//! Last-known conclusions per workflow, to detect a workflow turning red
//! (pass → fail) or recovering (fail → pass) between refreshes.

use vstd::prelude::*;

use crate::model::{results_view, Badge, RepoResult, RepoView, RowView};
use crate::text::str_eq;

verus! {

/// A finished run's conclusion, as remembered.
#[derive(Clone, Copy, Debug, PartialEq, Eq, Structural)]
pub enum Outcome {
    Pass,
    Fail,
}

/// The direction of a change between two refreshes.
#[derive(Clone, Copy, Debug, PartialEq, Eq, Structural)]
pub enum Change {
    /// It passed before and fails now.
    Broke,
    /// It failed before and passes now.
    Recovered,
}

/// The remembered outcome of one workflow.
pub struct Entry {
    pub repo: String,
    pub workflow: String,
    pub outcome: Outcome,
}

/// What the dashboard remembers between refreshes (kept in state.json).
pub struct State {
    pub entries: Vec<Entry>,
}

/// A workflow that passed and now fails, or failed and now passes.
pub struct Transition {
    pub repo: String,
    pub workflow: String,
    pub change: Change,
}

/// The outcome one workflow showed in a refresh.
pub struct Observation {
    pub repo: String,
    pub workflow: String,
    pub outcome: Outcome,
}

/// An observation or transition with its strings taken as characters.
pub struct Seen {
    pub repo: Seq<char>,
    pub workflow: Seq<char>,
    pub outcome: Outcome,
}

/// A transition with its strings taken as characters.
pub struct TransitionView {
    pub repo: Seq<char>,
    pub workflow: Seq<char>,
    pub change: Change,
}

/// The key a workflow is remembered under.
pub type Key = (Seq<char>, Seq<char>);

impl View for Observation {
    type V = Seen;

    open spec fn view(&self) -> Seen {
        Seen { repo: self.repo@, workflow: self.workflow@, outcome: self.outcome }
    }
}

impl View for Transition {
    type V = TransitionView;

    open spec fn view(&self) -> TransitionView {
        TransitionView { repo: self.repo@, workflow: self.workflow@, change: self.change }
    }
}

/// The observations of a sequence, as views.
pub open spec fn seen_view(v: Seq<Observation>) -> Seq<Seen> {
    v.map_values(|o: Observation| o@)
}

/// The transitions of a sequence, as views.
pub open spec fn transitions_view(v: Seq<Transition>) -> Seq<TransitionView> {
    v.map_values(|t: Transition| t@)
}

/// The outcome a badge records: only passing and failing runs count.
pub open spec fn outcome_of(b: Badge) -> Option<Outcome> {
    match b {
        Badge::Pass => Some(Outcome::Pass),
        Badge::Fail => Some(Outcome::Fail),
        _ => None,
    }
}

/// The observations of one repo's rows.
pub open spec fn rows_seen(repo: Seq<char>, rows: Seq<RowView>) -> Seq<Seen>
    decreases rows.len(),
{
    if rows.len() == 0 {
        Seq::empty()
    } else {
        let p = rows_seen(repo, rows.drop_last());
        match outcome_of(rows.last().badge) {
            Some(o) => p.push(Seen { repo, workflow: rows.last().name, outcome: o }),
            None => p,
        }
    }
}

/// What a refresh observed: every passing or failing row of every repo that fetched.
pub open spec fn observations(rs: Seq<RepoView>) -> Seq<Seen>
    decreases rs.len(),
{
    if rs.len() == 0 {
        Seq::empty()
    } else {
        observations(rs.drop_last()) + if rs.last().error is None {
            rows_seen(rs.last().repo, rs.last().rows)
        } else {
            Seq::empty()
        }
    }
}

/// The key of an entry.
pub open spec fn entry_key(e: Entry) -> Key {
    (e.repo@, e.workflow@)
}

/// The key of an observation.
pub open spec fn seen_key(s: Seen) -> Key {
    (s.repo, s.workflow)
}

/// The memory the entries hold; a later entry for the same key wins.
pub open spec fn memory_of(es: Seq<Entry>) -> Map<Key, Outcome>
    decreases es.len(),
{
    if es.len() == 0 {
        Map::empty()
    } else {
        memory_of(es.drop_last()).insert(entry_key(es.last()), es.last().outcome)
    }
}

/// The memory after recording the observations in order.
pub open spec fn committed(mem: Map<Key, Outcome>, obs: Seq<Seen>) -> Map<Key, Outcome>
    decreases obs.len(),
{
    if obs.len() == 0 {
        mem
    } else {
        committed(mem, obs.drop_last()).insert(seen_key(obs.last()), obs.last().outcome)
    }
}

/// The change an observation makes to a remembered outcome, if any.
pub open spec fn change_of(mem: Map<Key, Outcome>, o: Seen) -> Option<Change> {
    if mem.contains_key(seen_key(o)) && mem[seen_key(o)] != o.outcome {
        if o.outcome == Outcome::Fail {
            Some(Change::Broke)
        } else {
            Some(Change::Recovered)
        }
    } else {
        None
    }
}

/// The transitions the observations show against a memory, in order.
pub open spec fn transitions_of(mem: Map<Key, Outcome>, obs: Seq<Seen>) -> Seq<TransitionView>
    decreases obs.len(),
{
    if obs.len() == 0 {
        Seq::empty()
    } else {
        let p = transitions_of(mem, obs.drop_last());
        let o = obs.last();
        match change_of(mem, o) {
            Some(c) => p.push(TransitionView { repo: o.repo, workflow: o.workflow, change: c }),
            None => p,
        }
    }
}

fn outcome_for(b: Badge) -> (r: Option<Outcome>)
    ensures
        r == outcome_of(b),
{
    match b {
        Badge::Pass => Some(Outcome::Pass),
        Badge::Fail => Some(Outcome::Fail),
        _ => None,
    }
}

/// Everything a refresh observed, in result order.
pub fn observe(results: &Vec<RepoResult>) -> (obs: Vec<Observation>)
    ensures
        seen_view(obs@) == observations(results_view(results@)),
{
    let mut obs: Vec<Observation> = Vec::new();
    for i in 0..results.len()
        invariant
            seen_view(obs@) == observations(results_view(results@.take(i as int))),
    {
        let r = &results[i];
        let ghost base = seen_view(obs@);
        assert(results_view(results@.take(i + 1)).drop_last() =~= results_view(
            results@.take(i as int),
        ));
        assert(results_view(results@.take(i + 1)).last() == r@);
        if r.error.is_none() {
            for k in 0..r.rows.len()
                invariant
                    r.error is None,
                    seen_view(obs@) == base + rows_seen(r.repo@, r@.rows.take(k as int)),
            {
                let row = &r.rows[k];
                assert(r@.rows.take(k + 1).drop_last() =~= r@.rows.take(k as int));
                assert(r@.rows.take(k + 1).last() == row@);
                match outcome_for(row.badge) {
                    Some(o) => {
                        let ghost before = seen_view(obs@);
                        obs.push(
                            Observation {
                                repo: r.repo.clone(),
                                workflow: row.workflow_name.clone(),
                                outcome: o,
                            },
                        );
                        assert(seen_view(obs@) =~= before.push(
                            Seen { repo: r.repo@, workflow: row.workflow_name@, outcome: o },
                        ));
                        assert(seen_view(obs@) =~= base + rows_seen(
                            r.repo@,
                            r@.rows.take(k + 1),
                        ));
                    },
                    None => {},
                }
            }
            assert(r@.rows.take(r.rows.len() as int) =~= r@.rows);
        } else {
            assert(seen_view(obs@) =~= base + Seq::<Seen>::empty());
        }
    }
    assert(results@.take(results.len() as int) =~= results@);
    obs
}

proof fn lemma_memory_suffix(es: Seq<Entry>, j: int, k: Key)
    requires
        0 <= j <= es.len(),
        forall|i: int| j <= i < es.len() ==> entry_key(#[trigger] es[i]) != k,
    ensures
        memory_of(es).contains_key(k) == memory_of(es.take(j)).contains_key(k),
        memory_of(es).contains_key(k) ==> memory_of(es)[k] == memory_of(es.take(j))[k],
    decreases es.len() - j,
{
    if j < es.len() {
        lemma_memory_suffix(es.drop_last(), j, k);
        assert(es.drop_last().take(j) =~= es.take(j));
    } else {
        assert(es.take(j) =~= es);
    }
}

proof fn lemma_memory_update(es: Seq<Entry>, j: int, e: Entry)
    requires
        0 <= j < es.len(),
        entry_key(es[j]) == entry_key(e),
        forall|i: int| j < i < es.len() ==> entry_key(#[trigger] es[i]) != entry_key(e),
    ensures
        memory_of(es.update(j, e)) == memory_of(es).insert(entry_key(e), e.outcome),
    decreases es.len(),
{
    if j == es.len() - 1 {
        assert(es.update(j, e).drop_last() =~= es.drop_last());
        assert(memory_of(es.update(j, e)) =~= memory_of(es).insert(entry_key(e), e.outcome));
    } else {
        lemma_memory_update(es.drop_last(), j, e);
        assert(es.update(j, e).drop_last() =~= es.drop_last().update(j, e));
        assert(es.update(j, e).last() == es.last());
        assert(memory_of(es.update(j, e)) =~= memory_of(es).insert(entry_key(e), e.outcome));
    }
}

impl State {
    /// The remembered outcome of each workflow.
    pub open spec fn memory(self) -> Map<Key, Outcome> {
        memory_of(self.entries@)
    }

    /// A memory of nothing.
    pub fn new() -> (s: State)
        ensures
            s.memory() == Map::<Key, Outcome>::empty(),
    {
        State { entries: Vec::new() }
    }

    /// The index of the last entry for `(repo, workflow)`.
    fn find(&self, repo: &str, workflow: &str) -> (r: Option<usize>)
        ensures
            match r {
                Some(j) => {
                    &&& j < self.entries.len()
                    &&& entry_key(self.entries@[j as int]) == (repo@, workflow@)
                    &&& forall|i: int|
                        j < i < self.entries.len() ==> entry_key(#[trigger] self.entries@[i]) != (
                        repo@,
                        workflow@,
                    )
                    &&& self.memory().contains_key((repo@, workflow@))
                    &&& self.memory()[(repo@, workflow@)] == self.entries@[j as int].outcome
                },
                None => !self.memory().contains_key((repo@, workflow@)),
            },
    {
        let ghost k = (repo@, workflow@);
        let mut j = self.entries.len();
        while j > 0
            invariant
                j <= self.entries.len(),
                k == (repo@, workflow@),
                forall|i: int| j <= i < self.entries.len() ==> entry_key(#[trigger] self.entries@[i]) != k,
            decreases j,
        {
            let e = &self.entries[j - 1];
            if str_eq(e.repo.as_str(), repo) && str_eq(e.workflow.as_str(), workflow) {
                proof {
                    lemma_memory_suffix(self.entries@, j as int, k);
                    assert(self.entries@.take(j as int).drop_last() =~= self.entries@.take(
                        j - 1,
                    ));
                }
                return Some(j - 1);
            }
            j = j - 1;
        }
        proof {
            lemma_memory_suffix(self.entries@, 0, k);
        }
        None
    }

    /// The remembered outcome of `(repo, workflow)`.
    pub fn outcome(&self, repo: &str, workflow: &str) -> (r: Option<Outcome>)
        ensures
            r == (if self.memory().contains_key((repo@, workflow@)) {
                Some(self.memory()[(repo@, workflow@)])
            } else {
                None
            }),
    {
        match self.find(repo, workflow) {
            Some(j) => Some(self.entries[j].outcome),
            None => None,
        }
    }

    /// Remember `outcome` for `(repo, workflow)`.
    pub fn record(&mut self, repo: &String, workflow: &String, outcome: Outcome)
        ensures
            final(self).memory() == old(self).memory().insert((repo@, workflow@), outcome),
    {
        let e = Entry { repo: repo.clone(), workflow: workflow.clone(), outcome };
        match self.find(repo.as_str(), workflow.as_str()) {
            Some(j) => {
                proof {
                    lemma_memory_update(self.entries@, j as int, e);
                }
                self.entries.set(j, e);
            },
            None => {
                self.entries.push(e);
                assert(self.entries@.drop_last() =~= old(self).entries@);
            },
        }
    }

    /// The workflows that turned red or recovered since the last commit, in result order.
    pub fn diff(&self, results: &Vec<RepoResult>) -> (ts: Vec<Transition>)
        ensures
            transitions_view(ts@) == transitions_of(
                self.memory(),
                observations(results_view(results@)),
            ),
    {
        let obs = observe(results);
        let mut ts: Vec<Transition> = Vec::new();
        for i in 0..obs.len()
            invariant
                transitions_view(ts@) == transitions_of(
                    self.memory(),
                    seen_view(obs@.take(i as int)),
                ),
        {
            let o = &obs[i];
            assert(seen_view(obs@.take(i + 1)).drop_last() =~= seen_view(obs@.take(i as int)));
            assert(seen_view(obs@.take(i + 1)).last() == o@);
            match self.outcome(o.repo.as_str(), o.workflow.as_str()) {
                Some(prev) => {
                    if prev != o.outcome {
                        let change = match o.outcome {
                            Outcome::Fail => Change::Broke,
                            Outcome::Pass => Change::Recovered,
                        };
                        let ghost before = transitions_view(ts@);
                        ts.push(
                            Transition {
                                repo: o.repo.clone(),
                                workflow: o.workflow.clone(),
                                change,
                            },
                        );
                        assert(transitions_view(ts@) =~= before.push(
                            TransitionView { repo: o.repo@, workflow: o.workflow@, change },
                        ));
                    }
                },
                None => {},
            }
        }
        assert(obs@.take(obs.len() as int) =~= obs@);
        ts
    }

    /// Remember every outcome the refresh observed.
    pub fn commit(&mut self, results: &Vec<RepoResult>)
        ensures
            final(self).memory() == committed(
                old(self).memory(),
                observations(results_view(results@)),
            ),
    {
        let obs = observe(results);
        let ghost start = self.memory();
        for i in 0..obs.len()
            invariant
                self.memory() == committed(start, seen_view(obs@.take(i as int))),
        {
            let o = &obs[i];
            assert(seen_view(obs@.take(i + 1)).drop_last() =~= seen_view(obs@.take(i as int)));
            assert(seen_view(obs@.take(i + 1)).last() == o@);
            self.record(&o.repo, &o.workflow, o.outcome);
        }
        assert(obs@.take(obs.len() as int) =~= obs@);
    }
}

// ── laws ─────────────────────────────────────────────────────────

/// The keys of the observations are distinct.
pub open spec fn distinct_keys(obs: Seq<Seen>) -> bool {
    forall|i: int, j: int| 0 <= i < j < obs.len() ==> seen_key(obs[i]) != seen_key(obs[j])
}

proof fn lemma_committed_value(mem: Map<Key, Outcome>, obs: Seq<Seen>, i: int)
    requires
        distinct_keys(obs),
        0 <= i < obs.len(),
    ensures
        committed(mem, obs).contains_key(seen_key(obs[i])),
        committed(mem, obs)[seen_key(obs[i])] == obs[i].outcome,
    decreases obs.len(),
{
    if i < obs.len() - 1 {
        lemma_committed_value(mem, obs.drop_last(), i);
    }
}

proof fn lemma_transitions_quiet(mem: Map<Key, Outcome>, obs: Seq<Seen>)
    requires
        forall|i: int| 0 <= i < obs.len() ==> #[trigger] change_of(mem, obs[i]) is None,
    ensures
        transitions_of(mem, obs).len() == 0,
    decreases obs.len(),
{
    if obs.len() > 0 {
        lemma_transitions_quiet(mem, obs.drop_last());
        assert(change_of(mem, obs[obs.len() - 1]) is None);
    }
}

/// Committing a refresh and diffing the same refresh again reports nothing,
/// when no workflow is observed twice.
pub proof fn law_commit_then_diff_is_quiet(mem: Map<Key, Outcome>, obs: Seq<Seen>)
    requires
        distinct_keys(obs),
    ensures
        transitions_of(committed(mem, obs), obs).len() == 0,
{
    let m = committed(mem, obs);
    assert forall|i: int| 0 <= i < obs.len() implies #[trigger] change_of(m, obs[i]) is None by {
        lemma_committed_value(mem, obs, i);
    }
    lemma_transitions_quiet(m, obs);
}

/// Nothing is reported against an empty memory: the first refresh never notifies.
pub proof fn law_first_refresh_is_quiet(obs: Seq<Seen>)
    ensures
        transitions_of(Map::empty(), obs).len() == 0,
{
    assert forall|i: int| 0 <= i < obs.len() implies #[trigger] change_of(
        Map::<Key, Outcome>::empty(),
        obs[i],
    ) is None by {}
    lemma_transitions_quiet(Map::empty(), obs);
}

/// What `record` remembers is what `outcome` then reads back, and every
/// other workflow keeps its remembered outcome.
pub proof fn law_record_then_read(mem: Map<Key, Outcome>, k: Key, o: Outcome, other: Key)
    requires
        other != k,
    ensures
        mem.insert(k, o).contains_key(k),
        mem.insert(k, o)[k] == o,
        mem.insert(k, o).contains_key(other) == mem.contains_key(other),
        mem.contains_key(other) ==> mem.insert(k, o)[other] == mem[other],
{
}

/// A reported transition goes from the remembered outcome to the observed one:
/// `Broke` means it passed and now fails, `Recovered` the reverse.
pub proof fn law_transition_direction(mem: Map<Key, Outcome>, obs: Seq<Seen>, i: int)
    requires
        0 <= i < transitions_of(mem, obs).len(),
    ensures
        ({
            let t = transitions_of(mem, obs)[i];
            let k = (t.repo, t.workflow);
            &&& mem.contains_key(k)
            &&& t.change == Change::Broke ==> mem[k] == Outcome::Pass
            &&& t.change == Change::Recovered ==> mem[k] == Outcome::Fail
        }),
    decreases obs.len(),
{
    if obs.len() > 0 {
        let p = transitions_of(mem, obs.drop_last());
        if i < p.len() {
            law_transition_direction(mem, obs.drop_last(), i);
        }
    }
}

/// A repo that failed to fetch is not observed: when every repo failed, the
/// refresh reports nothing and the memory stays as it was.
pub proof fn law_failed_fetches_change_nothing(mem: Map<Key, Outcome>, rs: Seq<RepoView>)
    requires
        forall|i: int| 0 <= i < rs.len() ==> (#[trigger] rs[i]).error is Some,
    ensures
        observations(rs).len() == 0,
        transitions_of(mem, observations(rs)).len() == 0,
        committed(mem, observations(rs)) == mem,
    decreases rs.len(),
{
    if rs.len() > 0 {
        let p = rs.drop_last();
        assert forall|i: int| 0 <= i < p.len() implies (#[trigger] p[i]).error is Some by {
            assert(p[i] == rs[i]);
        }
        law_failed_fetches_change_nothing(mem, p);
        assert(rs.last() == rs[rs.len() - 1]);
        assert(observations(rs) =~= observations(p));
    }
}

/// Only passing and failing runs are remembered: a `Fail` badge is a failure,
/// a `Pass` badge a success, and any other badge (cancelled, skipped,
/// running, ...) is neither.
pub proof fn law_outcome_classes(b: Badge)
    ensures
        outcome_of(b) == Some(Outcome::Fail) <==> b == Badge::Fail,
        outcome_of(b) == Some(Outcome::Pass) <==> b == Badge::Pass,
        outcome_of(b) is None <==> (b != Badge::Fail && b != Badge::Pass),
{
}

/// A row is seen as it shows: as a failure when its badge is `Fail`, as a
/// success when it is `Pass`.
pub open spec fn seen_as_shown(o: Seen, repo: Seq<char>, row: RowView) -> bool {
    &&& o.repo == repo
    &&& o.workflow == row.name
    &&& (o.outcome == Outcome::Fail ==> row.badge == Badge::Fail)
    &&& (o.outcome == Outcome::Pass ==> row.badge == Badge::Pass)
}

proof fn lemma_rows_seen(repo: Seq<char>, rows: Seq<RowView>, i: int)
    requires
        0 <= i < rows_seen(repo, rows).len(),
    ensures
        exists|k: int| 0 <= k < rows.len() && seen_as_shown(rows_seen(repo, rows)[i], repo, #[trigger] rows[k]),
    decreases rows.len(),
{
    let p = rows_seen(repo, rows.drop_last());
    if i < p.len() {
        lemma_rows_seen(repo, rows.drop_last(), i);
        let k = choose|k: int| 0 <= k < rows.drop_last().len() && seen_as_shown(p[i], repo, #[trigger] rows.drop_last()[k]);
        assert(rows[k] == rows.drop_last()[k]);
    } else {
        let k = rows.len() - 1;
        assert(rows[k] == rows.last());
        assert(seen_as_shown(rows_seen(repo, rows)[i], repo, rows[k]));
    }
}

/// Every observation of a refresh is a row of a repo that fetched, seen as
/// it shows: a cancelled, skipped or running row is never taken for a failure
/// or a success.
pub proof fn law_observations_as_shown(rs: Seq<RepoView>, i: int)
    requires
        0 <= i < observations(rs).len(),
    ensures
        exists|j: int, k: int|
            0 <= j < rs.len() && rs[j].error is None && 0 <= k < rs[j].rows.len() && seen_as_shown(
                observations(rs)[i],
                rs[j].repo,
                #[trigger] rs[j].rows[k],
            ),
    decreases rs.len(),
{
    let p = observations(rs.drop_last());
    if i < p.len() {
        law_observations_as_shown(rs.drop_last(), i);
        let (j, k) = choose|j: int, k: int|
            0 <= j < rs.drop_last().len() && rs.drop_last()[j].error is None && 0 <= k
                < rs.drop_last()[j].rows.len() && seen_as_shown(p[i], rs.drop_last()[j].repo, #[trigger] rs.drop_last()[j].rows[k]);
        assert(rs[j] == rs.drop_last()[j]);
        assert(seen_as_shown(observations(rs)[i], rs[j].repo, rs[j].rows[k]));
    } else {
        let j = rs.len() - 1;
        assert(rs[j] == rs.last());
        let last = rs.last();
        assert(last.error is None);
        lemma_rows_seen(last.repo, last.rows, i - p.len());
        let k = choose|k: int| 0 <= k < last.rows.len() && seen_as_shown(rows_seen(last.repo, last.rows)[i - p.len()], last.repo, #[trigger] last.rows[k]);
        assert(observations(rs)[i] == rows_seen(last.repo, last.rows)[i - p.len()]);
        assert(seen_as_shown(observations(rs)[i], rs[j].repo, rs[j].rows[k]));
    }
}

} // verus!
