//! The recording engine's bookkeeping: whether monitoring runs and which recordings are active.
use vstd::prelude::*;

use crate::models::EngineSummary;
use crate::sorting::lemma_filter_take_step;
use crate::text::{same_text, texts};

verus! {

/// A recording in progress and the stream it belongs to.
#[derive(Debug, PartialEq, Eq)]
pub struct ActiveJob {
    pub job_id: String,
    pub target_id: String,
}

impl Clone for ActiveJob {
    fn clone(&self) -> (r: Self)
        ensures
            r == *self,
    {
        ActiveJob { job_id: self.job_id.clone(), target_id: self.target_id.clone() }
    }
}

/// Some active recording has identifier `job_id`.
pub open spec fn is_active(rows: Seq<ActiveJob>, job_id: Seq<char>) -> bool {
    exists|k: int| 0 <= k < rows.len() && rows[k].job_id@ == job_id
}

/// Some active recording belongs to the stream `target_id`.
pub open spec fn records_target(rows: Seq<ActiveJob>, target_id: Seq<char>) -> bool {
    exists|k: int| 0 <= k < rows.len() && rows[k].target_id@ == target_id
}

/// The identifiers of the given recordings, in order.
pub open spec fn job_ids(rows: Seq<ActiveJob>) -> Seq<Seq<char>> {
    rows.map_values(|a: ActiveJob| a.job_id@)
}

/// The message given when a recording to stop is not active.
pub open spec fn not_active_message() -> Seq<char> {
    "That recording is no longer active."@
}

/// `after` is `before` with `job_id` recorded as a recording of `target_id`: an entry under the
/// same identifier is replaced, otherwise one is added at the end.
pub open spec fn registered(
    before: Seq<ActiveJob>,
    after: Seq<ActiveJob>,
    job_id: Seq<char>,
    target_id: Seq<char>,
) -> bool {
    if is_active(before, job_id) {
        &&& after.len() == before.len()
        &&& forall|k: int|
            0 <= k < before.len() ==> if before[k].job_id@ == job_id {
                after[k].job_id@ == job_id && after[k].target_id@ == target_id
            } else {
                after[k] == before[k]
            }
    } else {
        &&& after.drop_last() == before
        &&& after.len() == before.len() + 1
        &&& after.last().job_id@ == job_id
        &&& after.last().target_id@ == target_id
    }
}

/// A registered recording is active and its stream has an active recording.
pub proof fn law_registered_job_is_active(
    before: Seq<ActiveJob>,
    after: Seq<ActiveJob>,
    job_id: Seq<char>,
    target_id: Seq<char>,
)
    requires
        registered(before, after, job_id, target_id),
    ensures
        is_active(after, job_id),
        records_target(after, target_id),
{
    if is_active(before, job_id) {
        let k = choose|k: int| 0 <= k < before.len() && before[k].job_id@ == job_id;
        assert(after[k].job_id@ == job_id && after[k].target_id@ == target_id);
    } else {
        assert(after[after.len() - 1].job_id@ == job_id);
    }
}


/// `b` is `a` after `start`, which said `spawn` (see `EngineRuntime::start`).
pub open spec fn start_step(a: EngineRuntime, b: EngineRuntime, spawn: bool) -> bool {
    &&& b.is_running()
    &&& b.scheduler_is_started()
    &&& spawn == !a.scheduler_is_started()
}

/// `b` is `a` after an operation other than `start`, which spawns nothing and keeps the
/// scheduler flag, as `pause_all`, `register_active` and `finish` do.
pub open spec fn other_step(a: EngineRuntime, b: EngineRuntime, spawn: bool) -> bool {
    &&& b.scheduler_is_started() == a.scheduler_is_started()
    &&& !spawn
}

/// The run `states` goes step by step by starts (where `is_start`) and other operations, the
/// `i`-th step spawning the scheduler where `spawned[i]`.
pub open spec fn engine_run(states: Seq<EngineRuntime>, is_start: Seq<bool>, spawned: Seq<bool>) -> bool {
    &&& states.len() == is_start.len() + 1
    &&& spawned.len() == is_start.len()
    &&& forall|i: int|
        0 <= i < is_start.len() ==> if #[trigger] is_start[i] {
            start_step(states[i], states[i + 1], spawned[i])
        } else {
            other_step(states[i], states[i + 1], spawned[i])
        }
}

proof fn lemma_started_stays(states: Seq<EngineRuntime>, is_start: Seq<bool>, spawned: Seq<bool>, i: int, j: int)
    requires
        engine_run(states, is_start, spawned),
        0 <= i <= j < states.len(),
        states[i].scheduler_is_started(),
    ensures
        states[j].scheduler_is_started(),
    decreases j - i,
{
    if i < j {
        let k = j - 1;
        lemma_started_stays(states, is_start, spawned, i, k);
        assert(if is_start[k] {
            start_step(states[k], states[k + 1], spawned[k])
        } else {
            other_step(states[k], states[k + 1], spawned[k])
        });
        assert(k + 1 == j);
    }
}

proof fn lemma_unstarted_until_start(
    states: Seq<EngineRuntime>,
    is_start: Seq<bool>,
    spawned: Seq<bool>,
    j: int,
)
    requires
        engine_run(states, is_start, spawned),
        0 <= j < states.len(),
        !states[0].scheduler_is_started(),
        forall|q: int| 0 <= q < j ==> !is_start[q],
    ensures
        !states[j].scheduler_is_started(),
    decreases j,
{
    if j > 0 {
        let k = j - 1;
        lemma_unstarted_until_start(states, is_start, spawned, k);
        assert(!is_start[k]);
        assert(other_step(states[k], states[k + 1], spawned[k]));
        assert(k + 1 == j);
    }
}

/// Over any run of starts, pauses and other operations, the scheduler is spawned at most once,
/// and only by a start that finds it not started; from a runtime whose scheduler was never
/// started, the first start spawns it. Monitoring runs after every start.
pub proof fn law_scheduler_spawned_once(
    states: Seq<EngineRuntime>,
    is_start: Seq<bool>,
    spawned: Seq<bool>,
)
    requires
        engine_run(states, is_start, spawned),
    ensures
        forall|i: int, j: int|
            0 <= i < j < spawned.len() ==> !(#[trigger] spawned[i] && #[trigger] spawned[j]),
        forall|i: int|
            0 <= i < spawned.len() && #[trigger] spawned[i] ==> is_start[i]
                && !states[i].scheduler_is_started(),
        forall|i: int|
            0 <= i < is_start.len() && #[trigger] is_start[i] ==> states[i + 1].is_running(),
        !states[0].scheduler_is_started() ==> forall|i: int|
            0 <= i < is_start.len() && #[trigger] is_start[i] && (forall|q: int|
                0 <= q < i ==> !is_start[q]) ==> spawned[i],
{
    assert forall|i: int, j: int| 0 <= i < j < spawned.len() implies !(#[trigger] spawned[i]
        && #[trigger] spawned[j]) by {
        if spawned[i] && spawned[j] {
            assert(if is_start[i] {
                start_step(states[i], states[i + 1], spawned[i])
            } else {
                other_step(states[i], states[i + 1], spawned[i])
            });
            lemma_started_stays(states, is_start, spawned, i + 1, j);
            assert(if is_start[j] {
                start_step(states[j], states[j + 1], spawned[j])
            } else {
                other_step(states[j], states[j + 1], spawned[j])
            });
        }
    }
    assert forall|i: int| 0 <= i < spawned.len() && #[trigger] spawned[i] implies is_start[i]
        && !states[i].scheduler_is_started() by {
        assert(if is_start[i] {
            start_step(states[i], states[i + 1], spawned[i])
        } else {
            other_step(states[i], states[i + 1], spawned[i])
        });
    }
    assert forall|i: int| 0 <= i < is_start.len() && #[trigger] is_start[i] implies states[i
        + 1].is_running() by {
        assert(start_step(states[i], states[i + 1], spawned[i]));
    }
    if !states[0].scheduler_is_started() {
        assert forall|i: int|
            0 <= i < is_start.len() && #[trigger] is_start[i] && (forall|q: int|
                0 <= q < i ==> !is_start[q]) implies spawned[i] by {
            lemma_unstarted_until_start(states, is_start, spawned, i);
            assert(start_step(states[i], states[i + 1], spawned[i]));
        }
    }
}

/// Keeping the elements that satisfy `p` keeps all of `s` when all satisfy it.
proof fn lemma_filter_keeps_all(s: Seq<ActiveJob>, p: spec_fn(ActiveJob) -> bool)
    requires
        forall|i: int| 0 <= i < s.len() ==> p(#[trigger] s[i]),
    ensures
        s.filter(p) == s,
    decreases s.len(),
{
    if s.len() == 0 {
        s.lemma_filter_len(p);
        assert(s.filter(p) =~= s);
    } else {
        let n = s.len() - 1;
        lemma_filter_keeps_all(s.drop_last(), p);
        lemma_filter_take_step(s, p, n);
        assert(s.take(n) =~= s.drop_last());
        assert(s.take(n + 1) =~= s);
        assert(p(s[n]));
        assert(s.drop_last().push(s[n]) =~= s);
    }
}

/// A recording that was not active, once registered and then finished, leaves the active
/// recordings as they were.
pub proof fn law_finish_undoes_register(
    before: Seq<ActiveJob>,
    mid: Seq<ActiveJob>,
    job_id: Seq<char>,
    target_id: Seq<char>,
)
    requires
        !is_active(before, job_id),
        registered(before, mid, job_id, target_id),
    ensures
        mid.filter(|a: ActiveJob| a.job_id@ != job_id) == before,
{
    let p = |a: ActiveJob| a.job_id@ != job_id;
    let n = before.len() as int;
    lemma_filter_take_step(mid, p, n);
    assert(mid.take(n) =~= before);
    assert(mid.take(n + 1) =~= mid);
    assert(!p(mid[n]));
    assert forall|i: int| 0 <= i < before.len() implies p(#[trigger] before[i]) by {
        if !p(before[i]) {
            assert(0 <= i < before.len() && before[i].job_id@ == job_id);
        }
    }
    lemma_filter_keeps_all(before, p);
}
/// Whether monitoring runs, whether the scheduler was started, and the active recordings.
pub struct EngineRuntime {
    running: bool,
    scheduler_started: bool,
    active_jobs: Vec<ActiveJob>,
}

impl EngineRuntime {
    /// Monitoring is on.
    pub closed spec fn is_running(&self) -> bool {
        self.running
    }

    /// The scheduler loop has been started.
    pub closed spec fn scheduler_is_started(&self) -> bool {
        self.scheduler_started
    }

    /// The active recordings.
    pub closed spec fn active_rows(&self) -> Seq<ActiveJob> {
        self.active_jobs@
    }

    /// No two active recordings share an identifier.
    pub open spec fn wf(&self) -> bool {
        forall|i: int, j: int|
            0 <= i < j < self.active_rows().len() ==> self.active_rows()[i].job_id@
                != self.active_rows()[j].job_id@
    }

    /// Monitoring off, no scheduler, nothing recording.
    pub fn new() -> (r: EngineRuntime)
        ensures
            r.wf(),
            !r.is_running(),
            !r.scheduler_is_started(),
            r.active_rows().len() == 0,
    {
        EngineRuntime { running: false, scheduler_started: false, active_jobs: Vec::new() }
    }

    /// Whether monitoring is on.
    pub fn running(&self) -> (r: bool)
        ensures
            r == self.is_running(),
    {
        self.running
    }

    /// Turns monitoring on; says whether the scheduler loop must be started now, which is so only
    /// the first time.
    pub fn start(&mut self) -> (spawn_scheduler: bool)
        ensures
            final(self).is_running(),
            final(self).scheduler_is_started(),
            spawn_scheduler == !old(self).scheduler_is_started(),
            final(self).active_rows() == old(self).active_rows(),
    {
        self.running = true;
        if !self.scheduler_started {
            self.scheduler_started = true;
            true
        } else {
            false
        }
    }

    /// Turns monitoring off; gives the identifiers of every active recording, all to be cancelled.
    pub fn pause_all(&mut self) -> (to_cancel: Vec<String>)
        ensures
            !final(self).is_running(),
            final(self).scheduler_is_started() == old(self).scheduler_is_started(),
            final(self).active_rows() == old(self).active_rows(),
            texts(to_cancel@) == job_ids(old(self).active_rows()),
    {
        self.running = false;
        let mut out: Vec<String> = Vec::new();
        let mut i: usize = 0;
        while i < self.active_jobs.len()
            invariant
                i <= self.active_jobs.len(),
                texts(out@) == job_ids(self.active_jobs@.take(i as int)),
            decreases self.active_jobs.len() - i,
        {
            let ghost before = out@;
            out.push(self.active_jobs[i].job_id.clone());
            assert(self.active_jobs@.take(i + 1) =~= self.active_jobs@.take(i as int).push(
                self.active_jobs@[i as int],
            ));
            assert(texts(out@) =~= texts(before).push(self.active_jobs@[i as int].job_id@));
            assert(job_ids(self.active_jobs@.take(i + 1)) =~= job_ids(
                self.active_jobs@.take(i as int),
            ).push(self.active_jobs@[i as int].job_id@));
            i = i + 1;
        }
        assert(self.active_jobs@.take(i as int) =~= self.active_jobs@);
        out
    }

    /// Whether the recording `job_id` can be stopped: it must be active.
    pub fn stop_job(&self, job_id: &str) -> (r: Result<(), String>)
        ensures
            r is Ok <==> is_active(self.active_rows(), job_id@),
            r matches Err(e) ==> e@ == not_active_message(),
    {
        if self.position(job_id).is_some() {
            Ok(())
        } else {
            Err("That recording is no longer active.".to_owned())
        }
    }

    fn position(&self, job_id: &str) -> (r: Option<usize>)
        ensures
            r matches Some(k) ==> k < self.active_rows().len() && self.active_rows()[k as int].job_id@
                == job_id@,
            r is None ==> !is_active(self.active_rows(), job_id@),
    {
        let mut i: usize = 0;
        while i < self.active_jobs.len()
            invariant
                i <= self.active_jobs.len(),
                forall|k: int| 0 <= k < i ==> self.active_jobs@[k].job_id@ != job_id@,
            decreases self.active_jobs.len() - i,
        {
            if same_text(self.active_jobs[i].job_id.as_str(), job_id) {
                return Some(i);
            }
            i = i + 1;
        }
        None
    }

    /// The identifiers of the active recordings of the stream `target_id`, all to be cancelled.
    pub fn cancel_target(&self, target_id: &str) -> (to_cancel: Vec<String>)
        ensures
            texts(to_cancel@) == job_ids(
                self.active_rows().filter(|a: ActiveJob| a.target_id@ == target_id@),
            ),
    {
        let ghost p = |a: ActiveJob| a.target_id@ == target_id@;
        let mut out: Vec<String> = Vec::new();
        let mut i: usize = 0;
        while i < self.active_jobs.len()
            invariant
                i <= self.active_jobs.len(),
                p == (|a: ActiveJob| a.target_id@ == target_id@),
                texts(out@) == job_ids(self.active_jobs@.take(i as int).filter(p)),
            decreases self.active_jobs.len() - i,
        {
            proof {
                lemma_filter_take_step(self.active_jobs@, p, i as int);
            }
            if same_text(self.active_jobs[i].target_id.as_str(), target_id) {
                let ghost before = out@;
                out.push(self.active_jobs[i].job_id.clone());
                assert(texts(out@) =~= texts(before).push(self.active_jobs@[i as int].job_id@));
                assert(job_ids(self.active_jobs@.take(i as int).filter(p).push(self.active_jobs@[i as int]))
                    =~= job_ids(self.active_jobs@.take(i as int).filter(p)).push(self.active_jobs@[i as int].job_id@));
            }
            i = i + 1;
        }
        assert(self.active_jobs@.take(i as int) =~= self.active_jobs@);
        out
    }

    /// Whether some recording of the stream `target_id` is active.
    pub fn has_active_job(&self, target_id: &str) -> (r: bool)
        ensures
            r == records_target(self.active_rows(), target_id@),
    {
        let mut i: usize = 0;
        while i < self.active_jobs.len()
            invariant
                i <= self.active_jobs.len(),
                forall|k: int| 0 <= k < i ==> self.active_jobs@[k].target_id@ != target_id@,
            decreases self.active_jobs.len() - i,
        {
            if same_text(self.active_jobs[i].target_id.as_str(), target_id) {
                return true;
            }
            i = i + 1;
        }
        false
    }

    /// How many recordings are active.
    pub fn active_count(&self) -> (r: usize)
        ensures
            r == self.active_rows().len(),
    {
        self.active_jobs.len()
    }

    /// Records that `job_id`, a recording of `target_id`, is active; an entry under the same
    /// identifier is replaced.
    pub fn register_active(&mut self, job_id: &str, target_id: &str)
        requires
            old(self).wf(),
        ensures
            final(self).wf(),
            final(self).is_running() == old(self).is_running(),
            final(self).scheduler_is_started() == old(self).scheduler_is_started(),
            registered(old(self).active_rows(), final(self).active_rows(), job_id@, target_id@),
    {
        let entry = ActiveJob { job_id: job_id.to_owned(), target_id: target_id.to_owned() };
        let ghost before = self.active_jobs@;
        match self.position(job_id) {
            Some(k) => {
                self.active_jobs.set(k, entry);
                proof {
                    assert forall|m: int|
                        0 <= m < before.len() && m != k implies before[m].job_id@ != job_id@ by {
                        if m < k {
                            assert(before[m].job_id@ != before[k as int].job_id@);
                        } else {
                            assert(before[k as int].job_id@ != before[m].job_id@);
                        }
                    }
                }
            },
            None => {
                self.active_jobs.push(entry);
                proof {
                    assert(self.active_jobs@.drop_last() =~= before);
                    assert forall|a: int, b: int| 0 <= a < b < self.active_jobs@.len() implies self.active_jobs@[a].job_id@
                        != self.active_jobs@[b].job_id@ by {
                        if b == before.len() {
                            assert(before[a].job_id@ != job_id@);
                        }
                    }
                }
            },
        }
    }

    /// Forgets the recording `job_id`, which has ended.
    pub fn finish(&mut self, job_id: &str)
        requires
            old(self).wf(),
        ensures
            final(self).wf(),
            final(self).is_running() == old(self).is_running(),
            final(self).scheduler_is_started() == old(self).scheduler_is_started(),
            final(self).active_rows() == old(self).active_rows().filter(
                |a: ActiveJob| a.job_id@ != job_id@,
            ),
            !is_active(final(self).active_rows(), job_id@),
    {
        let ghost p = |a: ActiveJob| a.job_id@ != job_id@;
        let mut kept: Vec<ActiveJob> = Vec::new();
        let mut i: usize = 0;
        while i < self.active_jobs.len()
            invariant
                i <= self.active_jobs.len(),
                p == (|a: ActiveJob| a.job_id@ != job_id@),
                self.wf(),
                kept@ == self.active_jobs@.take(i as int).filter(p),
            decreases self.active_jobs.len() - i,
        {
            proof {
                lemma_filter_take_step(self.active_jobs@, p, i as int);
            }
            if !same_text(self.active_jobs[i].job_id.as_str(), job_id) {
                kept.push(self.active_jobs[i].clone());
            }
            i = i + 1;
        }
        proof {
            assert(self.active_jobs@.take(i as int) =~= self.active_jobs@);
            let key = |a: ActiveJob| a.job_id@;
            assert forall|a: int, b: int| 0 <= a < b < self.active_jobs@.len() implies key(
                self.active_jobs@[a],
            ) != key(self.active_jobs@[b]) by {
                assert(self.active_rows()[a].job_id@ != self.active_rows()[b].job_id@);
            }
            assert(crate::sorting::distinct_by(self.active_jobs@, key));
            crate::sorting::lemma_filter_distinct(self.active_jobs@, p, key);
            assert forall|k: int| 0 <= k < kept@.len() implies kept@[k].job_id@ != job_id@ by {
                self.active_jobs@.lemma_filter_pred(p, k);
            }
        }
        self.active_jobs = kept;
    }

    /// The dashboard summary: the next global check is shown only while monitoring runs.
    pub fn summary(
        &self,
        enabled_targets: usize,
        next_global_check_at: Option<String>,
        sidecar_status: String,
    ) -> (r: EngineSummary)
        ensures
            r.running == self.is_running(),
            r.active_recordings == self.active_rows().len(),
            r.enabled_targets == enabled_targets,
            r.next_global_check_at == if self.is_running() {
                next_global_check_at
            } else {
                None
            },
            r.sidecar_status == sidecar_status,
    {
        EngineSummary {
            running: self.running,
            active_recordings: self.active_jobs.len(),
            enabled_targets,
            next_global_check_at: if self.running {
                next_global_check_at
            } else {
                None
            },
            sidecar_status,
        }
    }
}

} // verus!
