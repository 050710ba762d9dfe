//! The watch list, the recording history and the saved settings.
//!
//! The store keeps the rows of the three tables of the application database and answers every
//! query the way the application's SQL statements do: targets ordered enabled first and then by
//! name without regard to ASCII case, history joined with the stream names and ordered newest
//! first, stream URLs and record identifiers unique, and the history of a stream removed with it.
use vstd::prelude::*;

use crate::clock::{current_time, new_record_id};
use crate::models::{copy_opt, own_opt, str_opt, text_opt, AppSettings, JobRecord, RecordingJob, WatchTarget};
use crate::sorting::{
    distinct_by, lemma_filter_distinct, lemma_filter_take_step, sort_by_codes, sorted_by,
};
use crate::text::{binary_codes, binary_codes_of, nocase_codes, nocase_codes_of, same_text};

verus! {

broadcast use {vstd::seq_lib::group_to_multiset_ensures, vstd::multiset::group_multiset_axioms};

/// The message given when a stream URL is already on the watch list.
pub open spec fn duplicate_url_message() -> Seq<char> {
    "That stream URL is already in the watch list."@
}

/// The message given when an edit would give a stream the URL of another one.
pub open spec fn url_conflict_message() -> Seq<char> {
    "UNIQUE constraint failed: watch_targets.url"@
}

/// The message given when a recording identifier is already taken.
pub open spec fn job_id_conflict_message() -> Seq<char> {
    "UNIQUE constraint failed: recording_jobs.id"@
}

/// The message given when a recording is started for a stream that does not exist.
pub open spec fn missing_target_message() -> Seq<char> {
    "FOREIGN KEY constraint failed"@
}

/// The order of the watch list: enabled streams first, then by name without regard to ASCII case.
pub open spec fn target_key(t: WatchTarget) -> Seq<u32> {
    seq![if t.enabled { 0u32 } else { 1u32 }] + nocase_codes(t.name@)
}

/// The order of the history: by start time as text.
pub open spec fn job_key(j: RecordingJob) -> Seq<u32> {
    binary_codes(j.started_at@)
}

/// `r` is what a listing of at most `limit` recordings gives: the recordings whose stream exists,
/// each with the stream's name, newest first, the first `limit` of them.
pub open spec fn latest_listing(
    r: Seq<RecordingJob>,
    targets: Seq<WatchTarget>,
    jobs: Seq<JobRecord>,
    limit: int,
) -> bool {
    exists|full: Seq<RecordingJob>|
        {
            &&& #[trigger] full.to_multiset() == joined_history(targets, jobs).to_multiset()
            &&& sorted_by(full, |j: RecordingJob| job_key(j), true)
            &&& r == full.take(min_count(limit, full.len() as int))
        }
}

/// Some row has this identifier.
pub open spec fn has_target(rows: Seq<WatchTarget>, id: Seq<char>) -> bool {
    exists|i: int| 0 <= i < rows.len() && rows[i].id@ == id
}

/// Some row has this URL.
pub open spec fn has_url(rows: Seq<WatchTarget>, url: Seq<char>) -> bool {
    exists|i: int| 0 <= i < rows.len() && rows[i].url@ == url
}

/// Some recording has this identifier.
pub open spec fn has_job(rows: Seq<JobRecord>, id: Seq<char>) -> bool {
    exists|i: int| 0 <= i < rows.len() && rows[i].id@ == id
}

/// The row with this identifier, where there is one.
pub open spec fn target_of(rows: Seq<WatchTarget>, id: Seq<char>) -> WatchTarget {
    rows[choose|i: int| 0 <= i < rows.len() && rows[i].id@ == id]
}

/// The recording with this identifier, where there is one.
pub open spec fn job_of(rows: Seq<JobRecord>, id: Seq<char>) -> JobRecord {
    rows[choose|i: int| 0 <= i < rows.len() && rows[i].id@ == id]
}

/// Identifiers and URLs of the watch list, and identifiers of the history, are unique.
pub open spec fn keys_unique(targets: Seq<WatchTarget>, jobs: Seq<JobRecord>) -> bool {
    &&& forall|i: int, j: int|
        0 <= i < j < targets.len() ==> targets[i].id@ != targets[j].id@ && targets[i].url@
            != targets[j].url@
    &&& forall|i: int, j: int| 0 <= i < j < jobs.len() ==> jobs[i].id@ != jobs[j].id@
}

/// Every recording belongs to a stream on the watch list.
pub open spec fn jobs_have_targets(targets: Seq<WatchTarget>, jobs: Seq<JobRecord>) -> bool {
    forall|k: int| 0 <= k < jobs.len() ==> has_target(targets, #[trigger] jobs[k].target_id@)
}

/// Whether a stream with identifier `id` is among `targets`.
fn target_stored(targets: &Vec<WatchTarget>, id: &str) -> (r: bool)
    ensures
        r == has_target(targets@, id@),
{
    let mut i: usize = 0;
    while i < targets.len()
        invariant
            i <= targets.len(),
            forall|k: int| 0 <= k < i ==> targets@[k].id@ != id@,
        decreases targets.len() - i,
    {
        if same_text(targets[i].id.as_str(), id) {
            return true;
        }
        i = i + 1;
    }
    false
}

/// Streams that keep their identifiers, with more perhaps added after them, keep every
/// recording's stream stored.
proof fn lemma_targets_kept(before: Seq<WatchTarget>, after: Seq<WatchTarget>, jobs: Seq<JobRecord>)
    requires
        jobs_have_targets(before, jobs),
        before.len() <= after.len(),
        forall|i: int| 0 <= i < before.len() ==> #[trigger] after[i].id@ == before[i].id@,
    ensures
        jobs_have_targets(after, jobs),
{
    assert forall|k: int| 0 <= k < jobs.len() implies has_target(after, #[trigger] jobs[k].target_id@) by {
        let i = choose|i: int| 0 <= i < before.len() && before[i].id@ == jobs[k].target_id@;
        assert(after[i].id@ == before[i].id@);
    }
}

/// A recording with the name of its stream.
pub open spec fn join_row(job: JobRecord, target: WatchTarget) -> RecordingJob {
    RecordingJob {
        id: job.id,
        target_id: job.target_id,
        target_name: target.name,
        state: job.state,
        started_at: job.started_at,
        finished_at: job.finished_at,
        output_path: job.output_path,
        message: job.message,
        process_id: job.process_id,
    }
}

/// The recordings whose stream exists, each with the stream's name, in storage order.
pub open spec fn joined_history(targets: Seq<WatchTarget>, jobs: Seq<JobRecord>) -> Seq<
    RecordingJob,
>
    decreases jobs.len(),
{
    if jobs.len() == 0 {
        Seq::empty()
    } else {
        let rest = joined_history(targets, jobs.drop_last());
        let last = jobs.last();
        if has_target(targets, last.target_id@) {
            rest.push(join_row(last, target_of(targets, last.target_id@)))
        } else {
            rest
        }
    }
}

/// Every recording in the joined history is the join of a stored recording with its stream.
pub proof fn lemma_joined_member(targets: Seq<WatchTarget>, jobs: Seq<JobRecord>, x: RecordingJob)
    requires
        joined_history(targets, jobs).contains(x),
    ensures
        exists|k: int|
            0 <= k < jobs.len() && has_target(targets, jobs[k].target_id@) && x == join_row(
                #[trigger] jobs[k],
                target_of(targets, jobs[k].target_id@),
            ),
    decreases jobs.len(),
{
    let rest = joined_history(targets, jobs.drop_last());
    let last = jobs.last();
    if has_target(targets, last.target_id@) && x == join_row(
        last,
        target_of(targets, last.target_id@),
    ) {
        assert(jobs[jobs.len() - 1] == last);
    } else {
        if has_target(targets, last.target_id@) {
            let i = choose|i: int|
                0 <= i < joined_history(targets, jobs).len() && joined_history(targets, jobs)[i]
                    == x;
            assert(i < rest.len());
            assert(rest[i] == x);
        }
        lemma_joined_member(targets, jobs.drop_last(), x);
        let k = choose|k: int|
            0 <= k < jobs.drop_last().len() && has_target(targets, jobs.drop_last()[k].target_id@)
                && x == join_row(
                #[trigger] jobs.drop_last()[k],
                target_of(targets, jobs.drop_last()[k].target_id@),
            );
        assert(jobs[k] == jobs.drop_last()[k]);
    }
}

/// The smaller of two counts.
pub open spec fn min_count(a: int, b: int) -> int {
    if a <= b {
        a
    } else {
        b
    }
}

/// `t` is the stream that an insert of `name` and `url` under `id` at time `ts` stores.
pub open spec fn fresh_target(
    t: WatchTarget,
    id: Seq<char>,
    ts: Seq<char>,
    name: Seq<char>,
    url: Seq<char>,
) -> bool {
    &&& t.id@ == id
    &&& t.name@ == name
    &&& t.url@ == url
    &&& t.enabled
    &&& t.state@ == "Watching"@
    &&& t.status_detail@ == "Waiting for live stream"@
    &&& text_opt(t.next_check_at) == Some(ts)
    &&& t.last_checked_at is None
    &&& t.last_recording_at is None
    &&& t.active_job_id is None
    &&& t.created_at@ == ts
}

/// What an insert of `name` and `url` under identifier `id` at time `ts` does to the watch list.
pub open spec fn insert_outcome(
    before: Seq<WatchTarget>,
    after: Seq<WatchTarget>,
    r: Result<WatchTarget, String>,
    id: Seq<char>,
    ts: Seq<char>,
    name: Seq<char>,
    url: Seq<char>,
) -> bool {
    if has_target(before, id) || has_url(before, url) {
        &&& r matches Err(e) && e@ == duplicate_url_message()
        &&& after == before
    } else {
        &&& r matches Ok(t) && fresh_target(t, id, ts, name, url) && after == before.push(t)
    }
}

/// Another stream than the one with identifier `id` has URL `url`.
pub open spec fn url_taken_by_other(rows: Seq<WatchTarget>, id: Seq<char>, url: Seq<char>) -> bool {
    exists|k: int| 0 <= k < rows.len() && rows[k].url@ == url && rows[k].id@ != id
}

/// `n` is `o` with the name, URL and enabled flag of `edit`.
pub open spec fn edited(o: WatchTarget, n: WatchTarget, edit: WatchTarget) -> bool {
    n == WatchTarget { name: n.name, url: n.url, enabled: edit.enabled, ..o } && n.name@ == edit.name@
        && n.url@ == edit.url@
}

/// `n` is `o` with the given status, checked at `ts`.
pub open spec fn status_set(
    o: WatchTarget,
    n: WatchTarget,
    state: Seq<char>,
    detail: Seq<char>,
    next_check_at: Option<Seq<char>>,
    active_job_id: Option<Seq<char>>,
    ts: Seq<char>,
) -> bool {
    &&& n == WatchTarget {
        state: n.state,
        status_detail: n.status_detail,
        next_check_at: n.next_check_at,
        last_checked_at: n.last_checked_at,
        active_job_id: n.active_job_id,
        ..o
    }
    &&& n.state@ == state
    &&& n.status_detail@ == detail
    &&& text_opt(n.next_check_at) == next_check_at
    &&& text_opt(n.last_checked_at) == Some(ts)
    &&& text_opt(n.active_job_id) == active_job_id
}

/// `n` is `o` back to watching after a recording that ended at `ts` with `message`.
pub open spec fn recording_finished(o: WatchTarget, n: WatchTarget, message: Seq<char>, ts: Seq<char>) -> bool {
    &&& n == WatchTarget {
        state: n.state,
        status_detail: n.status_detail,
        active_job_id: None,
        last_recording_at: n.last_recording_at,
        next_check_at: n.next_check_at,
        ..o
    }
    &&& n.state@ == "Watching"@
    &&& n.status_detail@ == message
    &&& text_opt(n.last_recording_at) == Some(ts)
    &&& text_opt(n.next_check_at) == Some(ts)
}

/// Every stream with identifier `id` goes from `before` to `after` as `change` says; the rest stay.
pub open spec fn rows_changed_where(
    before: Seq<WatchTarget>,
    after: Seq<WatchTarget>,
    id: Seq<char>,
    change: spec_fn(WatchTarget, WatchTarget) -> bool,
) -> bool {
    &&& after.len() == before.len()
    &&& forall|k: int|
        0 <= k < before.len() ==> if before[k].id@ == id {
            change(before[k], #[trigger] after[k])
        } else {
            after[k] == before[k]
        }
}

/// The change that a status update makes to a stream.
pub open spec fn status_change(
    state: Seq<char>,
    detail: Seq<char>,
    next_check_at: Option<Seq<char>>,
    active_job_id: Option<Seq<char>>,
    ts: Seq<char>,
) -> spec_fn(WatchTarget, WatchTarget) -> bool {
    |o: WatchTarget, n: WatchTarget| status_set(o, n, state, detail, next_check_at, active_job_id, ts)
}

/// The change that the end of a recording makes to its stream.
pub open spec fn finished_change(message: Seq<char>, ts: Seq<char>) -> spec_fn(
    WatchTarget,
    WatchTarget,
) -> bool {
    |o: WatchTarget, n: WatchTarget| recording_finished(o, n, message, ts)
}

/// `j` is the recording that a start under `id` at time `ts` stores.
pub open spec fn fresh_job(
    j: JobRecord,
    id: Seq<char>,
    ts: Seq<char>,
    target_id: Seq<char>,
    output_path: Option<Seq<char>>,
) -> bool {
    &&& j.id@ == id
    &&& j.target_id@ == target_id
    &&& j.state@ == "Recording"@
    &&& j.started_at@ == ts
    &&& j.finished_at is None
    &&& text_opt(j.output_path) == output_path
    &&& j.message@ == "Recording started"@
    &&& j.process_id is None
}

/// What a start of a recording of `target_id` under `id` at time `ts` does to the history.
pub open spec fn create_job_outcome(
    targets: Seq<WatchTarget>,
    before: Seq<JobRecord>,
    after: Seq<JobRecord>,
    r: Result<RecordingJob, String>,
    id: Seq<char>,
    ts: Seq<char>,
    target_id: Seq<char>,
    output_path: Option<Seq<char>>,
) -> bool {
    if has_job(before, id) {
        &&& r matches Err(e) && e@ == job_id_conflict_message()
        &&& after == before
    } else if !has_target(targets, target_id) {
        &&& r matches Err(e) && e@ == missing_target_message()
        &&& after == before
    } else {
        &&& after.len() == before.len() + 1
        &&& after.drop_last() == before
        &&& fresh_job(after.last(), id, ts, target_id, output_path)
        &&& r == Ok::<RecordingJob, String>(join_row(after.last(), target_of(targets, target_id)))
    }
}

/// Every recording with identifier `id` goes from `before` to `after` as `change` says.
pub open spec fn jobs_changed_where(
    before: Seq<JobRecord>,
    after: Seq<JobRecord>,
    id: Seq<char>,
    change: spec_fn(JobRecord, JobRecord) -> bool,
) -> bool {
    &&& after.len() == before.len()
    &&& forall|k: int|
        0 <= k < before.len() ==> if before[k].id@ == id {
            change(before[k], #[trigger] after[k])
        } else {
            after[k] == before[k]
        }
}

/// `n` is `o` finished at `ts` in `state` with `message`; its output path is replaced only by a
/// given one.
pub open spec fn job_finished(
    o: JobRecord,
    n: JobRecord,
    state: Seq<char>,
    message: Seq<char>,
    output_path: Option<Seq<char>>,
    ts: Seq<char>,
) -> bool {
    &&& n == JobRecord {
        state: n.state,
        message: n.message,
        finished_at: n.finished_at,
        output_path: n.output_path,
        ..o
    }
    &&& n.state@ == state
    &&& n.message@ == message
    &&& text_opt(n.finished_at) == Some(ts)
    &&& text_opt(n.output_path) == match output_path {
        Some(p) => Some(p),
        None => text_opt(o.output_path),
    }
}

/// The change that finishing a recording at `ts` makes.
pub open spec fn finish_change(
    state: Seq<char>,
    message: Seq<char>,
    output_path: Option<Seq<char>>,
    ts: Seq<char>,
) -> spec_fn(JobRecord, JobRecord) -> bool {
    |o: JobRecord, n: JobRecord| job_finished(o, n, state, message, output_path, ts)
}

/// Position `k` is the one to pass over.
pub open spec fn is_skipped(skip: Option<usize>, k: int) -> bool {
    match skip {
        Some(s) => s as int == k,
        None => false,
    }
}

/// Streams other than the one with identifier `id`.
pub open spec fn keeps_target(id: Seq<char>) -> spec_fn(WatchTarget) -> bool {
    |t: WatchTarget| t.id@ != id
}

/// Recordings of streams other than the one with identifier `id`.
pub open spec fn keeps_job(id: Seq<char>) -> spec_fn(JobRecord) -> bool {
    |j: JobRecord| j.target_id@ != id
}

/// What a settings read gives: the saved settings, or the defaults before anything was saved.
pub open spec fn settings_value(db: Database) -> AppSettings {
    match db.saved_settings() {
        Some(s) => s,
        None => db.default_settings(),
    }
}

/// The application database.
pub struct Database {
    defaults: AppSettings,
    settings: Option<AppSettings>,
    targets: Vec<WatchTarget>,
    jobs: Vec<JobRecord>,
}

impl Database {
    /// The streams on the watch list, in storage order.
    pub closed spec fn target_rows(&self) -> Seq<WatchTarget> {
        self.targets@
    }

    /// The recordings of the history, in storage order.
    pub closed spec fn job_rows(&self) -> Seq<JobRecord> {
        self.jobs@
    }

    /// The saved settings, if any were saved.
    pub closed spec fn saved_settings(&self) -> Option<AppSettings> {
        self.settings
    }

    /// The settings that a first read saves when none were saved.
    pub closed spec fn default_settings(&self) -> AppSettings {
        self.defaults
    }

    /// The keys of both tables are unique and every recording's stream is stored.
    pub open spec fn wf(&self) -> bool {
        &&& keys_unique(self.target_rows(), self.job_rows())
        &&& jobs_have_targets(self.target_rows(), self.job_rows())
    }

    /// An empty database whose first settings read gives `defaults`.
    pub fn new(defaults: AppSettings) -> (r: Database)
        ensures
            r.wf(),
            r.target_rows().len() == 0,
            r.job_rows().len() == 0,
            r.saved_settings() is None,
            r.default_settings() == defaults,
    {
        Database { defaults, settings: None, targets: Vec::new(), jobs: Vec::new() }
    }

    /// A database holding the given rows; `None` where two rows share a key.
    pub fn load(
        defaults: AppSettings,
        settings: Option<AppSettings>,
        targets: Vec<WatchTarget>,
        jobs: Vec<JobRecord>,
    ) -> (r: Option<Database>)
        ensures
            r is Some <==> keys_unique(targets@, jobs@) && jobs_have_targets(targets@, jobs@),
            r matches Some(db) ==> {
                &&& db.wf()
                &&& db.target_rows() == targets@
                &&& db.job_rows() == jobs@
                &&& db.saved_settings() == settings
                &&& db.default_settings() == defaults
            },
    {
        let n = targets.len();
        let mut i: usize = 0;
        while i < n
            invariant
                n == targets.len(),
                i <= n,
                forall|a: int, b: int|
                    0 <= a < b < targets@.len() && a < i ==> targets@[a].id@ != targets@[b].id@
                        && targets@[a].url@ != targets@[b].url@,
            decreases n - i,
        {
            let mut j: usize = i + 1;
            while j < n
                invariant
                    n == targets.len(),
                    i < n,
                    i < j <= n,
                    forall|a: int, b: int|
                        0 <= a < b < targets@.len() && a < i ==> targets@[a].id@ != targets@[b].id@
                            && targets@[a].url@ != targets@[b].url@,
                    forall|b: int|
                        i < b < j ==> targets@[i as int].id@ != targets@[b].id@ && targets@[i as int].url@
                            != targets@[b].url@,
                decreases n - j,
            {
                if same_text(targets[i].id.as_str(), targets[j].id.as_str()) || same_text(
                    targets[i].url.as_str(),
                    targets[j].url.as_str(),
                ) {
                    return None;
                }
                j = j + 1;
            }
            i = i + 1;
        }
        let m = jobs.len();
        let mut i: usize = 0;
        while i < m
            invariant
                m == jobs.len(),
                i <= m,
                forall|a: int, b: int| 0 <= a < b < jobs@.len() && a < i ==> jobs@[a].id@ != jobs@[b].id@,
            decreases m - i,
        {
            let mut j: usize = i + 1;
            while j < m
                invariant
                    m == jobs.len(),
                    i < j <= m,
                    forall|a: int, b: int|
                        0 <= a < b < jobs@.len() && a < i ==> jobs@[a].id@ != jobs@[b].id@,
                    forall|b: int| i < b < j ==> jobs@[i as int].id@ != jobs@[b].id@,
                decreases m - j,
            {
                if same_text(jobs[i].id.as_str(), jobs[j].id.as_str()) {
                    return None;
                }
                j = j + 1;
            }
            i = i + 1;
        }
        let mut k: usize = 0;
        while k < m
            invariant
                m == jobs.len(),
                k <= m,
                forall|q: int| 0 <= q < k ==> has_target(targets@, #[trigger] jobs@[q].target_id@),
            decreases m - k,
        {
            if !target_stored(&targets, jobs[k].target_id.as_str()) {
                return None;
            }
            k = k + 1;
        }
        Some(Database { defaults, settings, targets, jobs })
    }

    /// The saved settings; on the first read, the defaults, which are saved then.
    pub fn settings(&mut self) -> (r: AppSettings)
        ensures
            final(self).target_rows() == old(self).target_rows(),
            final(self).job_rows() == old(self).job_rows(),
            final(self).default_settings() == old(self).default_settings(),
            r == settings_value(*old(self)),
            final(self).saved_settings() == Some(r),
    {
        match &self.settings {
            Some(s) => s.clone(),
            None => {
                let s = self.defaults.clone();
                self.settings = Some(s.clone());
                s
            },
        }
    }

    /// Saves `settings`; later reads give them back.
    pub fn save_settings(&mut self, settings: &AppSettings)
        ensures
            final(self).target_rows() == old(self).target_rows(),
            final(self).job_rows() == old(self).job_rows(),
            final(self).default_settings() == old(self).default_settings(),
            final(self).saved_settings() == Some(*settings),
    {
        self.settings = Some(settings.clone());
    }

    /// The saved settings, without saving the defaults when none were saved.
    pub fn stored_settings(&self) -> (r: Option<AppSettings>)
        ensures
            r == self.saved_settings(),
    {
        match &self.settings {
            Some(s) => Some(s.clone()),
            None => None,
        }
    }

    /// Every stream row, in storage order.
    pub fn stored_targets(&self) -> (r: Vec<WatchTarget>)
        ensures
            r@ == self.target_rows(),
    {
        let mut out: Vec<WatchTarget> = Vec::new();
        let mut i: usize = 0;
        while i < self.targets.len()
            invariant
                i <= self.targets.len(),
                out@ == self.targets@.take(i as int),
            decreases self.targets.len() - i,
        {
            out.push(self.targets[i].clone());
            assert(self.targets@.take(i + 1) =~= self.targets@.take(i as int).push(
                self.targets@[i as int],
            ));
            i = i + 1;
        }
        assert(self.targets@.take(i as int) =~= self.targets@);
        out
    }

    /// Every recording row, in storage order.
    pub fn stored_jobs(&self) -> (r: Vec<JobRecord>)
        ensures
            r@ == self.job_rows(),
    {
        let mut out: Vec<JobRecord> = Vec::new();
        let mut i: usize = 0;
        while i < self.jobs.len()
            invariant
                i <= self.jobs.len(),
                out@ == self.jobs@.take(i as int),
            decreases self.jobs.len() - i,
        {
            out.push(self.jobs[i].clone());
            assert(self.jobs@.take(i + 1) =~= self.jobs@.take(i as int).push(self.jobs@[i as int]));
            i = i + 1;
        }
        assert(self.jobs@.take(i as int) =~= self.jobs@);
        out
    }

    /// Where the stream with identifier `id` is stored.
    fn target_index(&self, id: &str) -> (r: Option<usize>)
        ensures
            r matches Some(i) ==> i < self.target_rows().len() && self.target_rows()[i as int].id@
                == id@,
            r is None ==> !has_target(self.target_rows(), id@),
    {
        let mut i: usize = 0;
        while i < self.targets.len()
            invariant
                i <= self.targets.len(),
                forall|k: int| 0 <= k < i ==> self.targets@[k].id@ != id@,
            decreases self.targets.len() - i,
        {
            if same_text(self.targets[i].id.as_str(), id) {
                return Some(i);
            }
            i = i + 1;
        }
        None
    }

    /// Where a stream with URL `url` is stored, other than at `skip`.
    fn url_index(&self, url: &str, skip: Option<usize>) -> (r: Option<usize>)
        ensures
            r matches Some(i) ==> i < self.target_rows().len() && self.target_rows()[i as int].url@
                == url@ && !is_skipped(skip, i as int),
            r is None ==> forall|k: int|
                0 <= k < self.target_rows().len() && !is_skipped(skip, k)
                    ==> (#[trigger] self.target_rows()[k]).url@ != url@,
    {
        let mut i: usize = 0;
        while i < self.targets.len()
            invariant
                i <= self.targets.len(),
                forall|k: int|
                    0 <= k < i && !is_skipped(skip, k) ==> (#[trigger] self.targets@[k]).url@ != url@,
            decreases self.targets.len() - i,
        {
            let skipped = match skip {
                Some(s) => s == i,
                None => false,
            };
            if !skipped && same_text(self.targets[i].url.as_str(), url) {
                return Some(i);
            }
            i = i + 1;
        }
        None
    }

    /// Where the recording with identifier `id` is stored.
    fn job_index(&self, id: &str) -> (r: Option<usize>)
        ensures
            r matches Some(i) ==> i < self.job_rows().len() && self.job_rows()[i as int].id@ == id@,
            r is None ==> !has_job(self.job_rows(), id@),
    {
        let mut i: usize = 0;
        while i < self.jobs.len()
            invariant
                i <= self.jobs.len(),
                forall|k: int| 0 <= k < i ==> self.jobs@[k].id@ != id@,
            decreases self.jobs.len() - i,
        {
            if same_text(self.jobs[i].id.as_str(), id) {
                return Some(i);
            }
            i = i + 1;
        }
        None
    }

    proof fn lemma_target_of_index(&self, i: int)
        requires
            self.wf(),
            0 <= i < self.target_rows().len(),
        ensures
            has_target(self.target_rows(), self.target_rows()[i].id@),
            target_of(self.target_rows(), self.target_rows()[i].id@) == self.target_rows()[i],
    {
        let rows = self.target_rows();
        let id = rows[i].id@;
        assert(0 <= i < rows.len() && rows[i].id@ == id);
        let k = choose|k: int| 0 <= k < rows.len() && rows[k].id@ == id;
        if k != i {
            if k < i {
                assert(rows[k].id@ != rows[i].id@);
            } else {
                assert(rows[i].id@ != rows[k].id@);
            }
        }
    }

    proof fn lemma_job_of_index(&self, i: int)
        requires
            self.wf(),
            0 <= i < self.job_rows().len(),
        ensures
            has_job(self.job_rows(), self.job_rows()[i].id@),
            job_of(self.job_rows(), self.job_rows()[i].id@) == self.job_rows()[i],
    {
        let rows = self.job_rows();
        let id = rows[i].id@;
        assert(0 <= i < rows.len() && rows[i].id@ == id);
        let k = choose|k: int| 0 <= k < rows.len() && rows[k].id@ == id;
        if k != i {
            if k < i {
                assert(rows[k].id@ != rows[i].id@);
            } else {
                assert(rows[i].id@ != rows[k].id@);
            }
        }
    }

    /// The watch list, enabled streams first, then by name without regard to ASCII case.
    pub fn list_targets(&self) -> (r: Vec<WatchTarget>)
        ensures
            r@.to_multiset() == self.target_rows().to_multiset(),
            sorted_by(r@, |t: WatchTarget| target_key(t), false),
    {
        let mut items: Vec<WatchTarget> = Vec::new();
        let mut keys: Vec<Vec<u32>> = Vec::new();
        let mut i: usize = 0;
        while i < self.targets.len()
            invariant
                i <= self.targets.len(),
                items@ == self.targets@.take(i as int),
                keys.len() == items.len(),
                forall|k: int| 0 <= k < items.len() ==> #[trigger] keys@[k]@ == target_key(items@[k]),
            decreases self.targets.len() - i,
        {
            let t = self.targets[i].clone();
            let mut key: Vec<u32> = Vec::new();
            key.push(if t.enabled { 0u32 } else { 1u32 });
            let mut name = nocase_codes_of(t.name.as_str());
            key.append(&mut name);
            assert(key@ =~= target_key(t));
            items.push(t);
            keys.push(key);
            assert(self.targets@.take(i + 1) =~= self.targets@.take(i as int).push(self.targets@[i as int]));
            i = i + 1;
        }
        assert(self.targets@.take(i as int) =~= self.targets@);
        sort_by_codes(items, keys, Ghost(|t: WatchTarget| target_key(t)), false)
    }

    /// The enabled streams, ordered by name without regard to ASCII case.
    pub fn enabled_targets(&self) -> (r: Vec<WatchTarget>)
        ensures
            r@.to_multiset() == self.target_rows().filter(|t: WatchTarget| t.enabled).to_multiset(),
            sorted_by(r@, |t: WatchTarget| target_key(t), false),
    {
        let ghost p = |t: WatchTarget| t.enabled;
        let mut items: Vec<WatchTarget> = Vec::new();
        let mut keys: Vec<Vec<u32>> = Vec::new();
        let mut i: usize = 0;
        while i < self.targets.len()
            invariant
                i <= self.targets.len(),
                p == (|t: WatchTarget| t.enabled),
                items@ == self.targets@.take(i as int).filter(p),
                keys.len() == items.len(),
                forall|k: int| 0 <= k < items.len() ==> #[trigger] keys@[k]@ == target_key(items@[k]),
            decreases self.targets.len() - i,
        {
            proof {
                lemma_filter_take_step(self.targets@, p, i as int);
                assert(p(self.targets@[i as int]) == self.targets@[i as int].enabled);
            }
            if self.targets[i].enabled {
                let t = self.targets[i].clone();
                let mut key: Vec<u32> = Vec::new();
                key.push(0u32);
                let mut name = nocase_codes_of(t.name.as_str());
                key.append(&mut name);
                assert(key@ =~= target_key(t));
                items.push(t);
                keys.push(key);
            }
            i = i + 1;
        }
        assert(self.targets@.take(i as int) =~= self.targets@);
        sort_by_codes(items, keys, Ghost(|t: WatchTarget| target_key(t)), false)
    }

    /// The stream with identifier `id`, if there is one.
    pub fn target(&self, id: &str) -> (r: Option<WatchTarget>)
        requires
            self.wf(),
        ensures
            r == if has_target(self.target_rows(), id@) {
                Some(target_of(self.target_rows(), id@))
            } else {
                None
            },
    {
        match self.target_index(id) {
            Some(i) => {
                proof {
                    self.lemma_target_of_index(i as int);
                }
                Some(self.targets[i].clone())
            },
            None => None,
        }
    }

    /// Adds the stream `name` at `url` under identifier `id`, created at time `timestamp`.
    pub fn insert_target_at(&mut self, id: &str, timestamp: &str, name: &str, url: &str) -> (r: Result<
        WatchTarget,
        String,
    >)
        requires
            old(self).wf(),
        ensures
            final(self).wf(),
            insert_outcome(
                old(self).target_rows(),
                final(self).target_rows(),
                r,
                id@,
                timestamp@,
                name@,
                url@,
            ),
            final(self).job_rows() == old(self).job_rows(),
            final(self).saved_settings() == old(self).saved_settings(),
            final(self).default_settings() == old(self).default_settings(),
    {
        if self.target_index(id).is_some() || self.url_index(url, None).is_some() {
            return Err("That stream URL is already in the watch list.".to_owned());
        }
        let t = WatchTarget {
            id: id.to_owned(),
            name: name.to_owned(),
            url: url.to_owned(),
            enabled: true,
            state: "Watching".to_owned(),
            status_detail: "Waiting for live stream".to_owned(),
            next_check_at: Some(timestamp.to_owned()),
            last_checked_at: None,
            last_recording_at: None,
            active_job_id: None,
            created_at: timestamp.to_owned(),
        };
        let ghost before = self.targets@;
        self.targets.push(t.clone());
        proof {
            lemma_targets_kept(before, self.targets@, self.jobs@);
            assert forall|a: int, b: int| 0 <= a < b < self.targets@.len() implies self.targets@[a].id@
                != self.targets@[b].id@ && self.targets@[a].url@ != self.targets@[b].url@ by {
                if b == before.len() {
                    assert(before[a].id@ != id@);
                    assert(before[a].url@ != url@);
                }
            }
        }
        Ok(t)
    }

    /// Adds the stream `name` at `url` under a fresh identifier, created now.
    pub fn insert_target(&mut self, name: &str, url: &str) -> (r: Result<WatchTarget, String>)
        requires
            old(self).wf(),
        ensures
            final(self).wf(),
            exists|id: Seq<char>, ts: Seq<char>|
                #[trigger] insert_outcome(
                    old(self).target_rows(),
                    final(self).target_rows(),
                    r,
                    id,
                    ts,
                    name@,
                    url@,
                ),
            has_url(old(self).target_rows(), url@) ==> (r matches Err(e) && e@ == duplicate_url_message()),
            final(self).job_rows() == old(self).job_rows(),
            final(self).saved_settings() == old(self).saved_settings(),
            final(self).default_settings() == old(self).default_settings(),
    {
        let id = new_record_id();
        let timestamp = current_time();
        let r = self.insert_target_at(id.as_str(), timestamp.as_str(), name, url);
        assert(insert_outcome(
            old(self).target_rows(),
            self.target_rows(),
            r,
            id@,
            timestamp@,
            name@,
            url@,
        ));
        r
    }

    /// Renames, moves and enables or disables the stream with the identifier of `target`.
    pub fn update_target(&mut self, target: &WatchTarget) -> (r: Result<(), String>)
        requires
            old(self).wf(),
        ensures
            final(self).wf(),
            final(self).job_rows() == old(self).job_rows(),
            final(self).saved_settings() == old(self).saved_settings(),
            final(self).default_settings() == old(self).default_settings(),
            if has_target(old(self).target_rows(), target.id@) && url_taken_by_other(
                old(self).target_rows(),
                target.id@,
                target.url@,
            ) {
                &&& r matches Err(e) && e@ == url_conflict_message()
                &&& final(self).target_rows() == old(self).target_rows()
            } else {
                &&& r is Ok
                &&& rows_changed_where(
                    old(self).target_rows(),
                    final(self).target_rows(),
                    target.id@,
                    |o: WatchTarget, n: WatchTarget| edited(o, n, *target),
                )
            },
    {
        let i = match self.target_index(target.id.as_str()) {
            Some(i) => i,
            None => return Ok(()),
        };
        match self.url_index(target.url.as_str(), Some(i)) {
            Some(k) => {
                proof {
                    assert(self.targets@[k as int].id@ != target.id@) by {
                        if k < i {
                            assert(self.targets@[k as int].id@ != self.targets@[i as int].id@);
                        } else {
                            assert(self.targets@[i as int].id@ != self.targets@[k as int].id@);
                        }
                    }
                }
                return Err("UNIQUE constraint failed: watch_targets.url".to_owned());
            },
            None => {},
        }
        let o = self.targets[i].clone();
        let n = WatchTarget {
            id: o.id,
            name: target.name.clone(),
            url: target.url.clone(),
            enabled: target.enabled,
            state: o.state,
            status_detail: o.status_detail,
            next_check_at: o.next_check_at,
            last_checked_at: o.last_checked_at,
            last_recording_at: o.last_recording_at,
            active_job_id: o.active_job_id,
            created_at: o.created_at,
        };
        let ghost before = self.targets@;
        proof {
            assert(!url_taken_by_other(before, target.id@, target.url@)) by {
                if url_taken_by_other(before, target.id@, target.url@) {
                    let k = choose|k: int|
                        0 <= k < before.len() && before[k].url@ == target.url@ && before[k].id@
                            != target.id@;
                    assert(k != i);
                }
            }
        }
        self.targets.set(i, n);
        proof {
            assert forall|k: int| 0 <= k < before.len() implies #[trigger] self.targets@[k].id@
                == before[k].id@ by {}
            lemma_targets_kept(before, self.targets@, self.jobs@);
            assert forall|k: int| 0 <= k < before.len() implies if before[k].id@ == target.id@ {
                edited(before[k], #[trigger] self.targets@[k], *target)
            } else {
                self.targets@[k] == before[k]
            } by {
                if k != i && before[k].id@ == target.id@ {
                    if k < i {
                        assert(before[k].id@ != before[i as int].id@);
                    } else {
                        assert(before[i as int].id@ != before[k].id@);
                    }
                }
            }
            assert forall|a: int, b: int| 0 <= a < b < self.targets@.len() implies self.targets@[a].id@
                != self.targets@[b].id@ && self.targets@[a].url@ != self.targets@[b].url@ by {
                if a == i {
                    assert(before[b].url@ != target.url@);
                } else if b == i {
                    assert(before[a].url@ != target.url@);
                }
            }
        }
        Ok(())
    }

    proof fn lemma_same_target_id(&self, i: int, k: int)
        requires
            self.wf(),
            0 <= i < self.target_rows().len(),
            0 <= k < self.target_rows().len(),
            self.target_rows()[i].id@ == self.target_rows()[k].id@,
        ensures
            i == k,
    {
        if i < k {
            assert(self.target_rows()[i].id@ != self.target_rows()[k].id@);
        } else if k < i {
            assert(self.target_rows()[k].id@ != self.target_rows()[i].id@);
        }
    }

    proof fn lemma_same_job_id(&self, i: int, k: int)
        requires
            self.wf(),
            0 <= i < self.job_rows().len(),
            0 <= k < self.job_rows().len(),
            self.job_rows()[i].id@ == self.job_rows()[k].id@,
        ensures
            i == k,
    {
        if i < k {
            assert(self.job_rows()[i].id@ != self.job_rows()[k].id@);
        } else if k < i {
            assert(self.job_rows()[k].id@ != self.job_rows()[i].id@);
        }
    }

    /// Removes the stream with identifier `id` and every recording of it.
    pub fn remove_target(&mut self, id: &str)
        requires
            old(self).wf(),
        ensures
            final(self).wf(),
            final(self).target_rows() == old(self).target_rows().filter(keeps_target(id@)),
            final(self).job_rows() == old(self).job_rows().filter(keeps_job(id@)),
            final(self).saved_settings() == old(self).saved_settings(),
            final(self).default_settings() == old(self).default_settings(),
    {
        let ghost pt = keeps_target(id@);
        let ghost pj = keeps_job(id@);
        let mut kept: Vec<WatchTarget> = Vec::new();
        let mut i: usize = 0;
        while i < self.targets.len()
            invariant
                i <= self.targets.len(),
                pt == keeps_target(id@),
                kept@ == self.targets@.take(i as int).filter(pt),
            decreases self.targets.len() - i,
        {
            proof {
                lemma_filter_take_step(self.targets@, pt, i as int);
            }
            if !same_text(self.targets[i].id.as_str(), id) {
                kept.push(self.targets[i].clone());
            }
            i = i + 1;
        }
        let mut kept_jobs: Vec<JobRecord> = Vec::new();
        let mut i: usize = 0;
        while i < self.jobs.len()
            invariant
                i <= self.jobs.len(),
                pj == keeps_job(id@),
                kept_jobs@ == self.jobs@.take(i as int).filter(pj),
            decreases self.jobs.len() - i,
        {
            proof {
                lemma_filter_take_step(self.jobs@, pj, i as int);
            }
            if !same_text(self.jobs[i].target_id.as_str(), id) {
                kept_jobs.push(self.jobs[i].clone());
            }
            i = i + 1;
        }
        proof {
            assert(self.targets@.take(self.targets@.len() as int) =~= self.targets@);
            assert(self.jobs@.take(self.jobs@.len() as int) =~= self.jobs@);
            let by_id = |t: WatchTarget| t.id@;
            let by_url = |t: WatchTarget| t.url@;
            let by_job = |j: JobRecord| j.id@;
            assert(distinct_by(self.targets@, by_id));
            assert(distinct_by(self.targets@, by_url));
            assert(distinct_by(self.jobs@, by_job));
            lemma_filter_distinct(self.targets@, pt, by_id);
            lemma_filter_distinct(self.targets@, pt, by_url);
            lemma_filter_distinct(self.jobs@, pj, by_job);
            assert forall|k: int| 0 <= k < kept_jobs@.len() implies has_target(
                kept@,
                #[trigger] kept_jobs@[k].target_id@,
            ) by {
                let j = kept_jobs@[k];
                self.jobs@.lemma_filter_pred(pj, k);
                assert(self.jobs@.filter(pj).contains(j));
                self.jobs@.lemma_filter_contains_rev(pj, j);
                let q = choose|q: int| 0 <= q < self.jobs@.len() && self.jobs@[q] == j;
                assert(has_target(self.targets@, self.jobs@[q].target_id@));
                let i = choose|i: int|
                    0 <= i < self.targets@.len() && self.targets@[i].id@ == j.target_id@;
                self.targets@.lemma_filter_contains(pt, i);
                let w = choose|w: int| 0 <= w < kept@.len() && kept@[w] == self.targets@[i];
                assert(kept@[w].id@ == j.target_id@);
            }
        }
        self.targets = kept;
        self.jobs = kept_jobs;
    }

    /// Records the status of the stream with identifier `id` as checked at `timestamp`.
    pub fn set_target_status_at(
        &mut self,
        id: &str,
        state: &str,
        detail: &str,
        next_check_at: Option<&str>,
        active_job_id: Option<&str>,
        timestamp: &str,
    )
        requires
            old(self).wf(),
        ensures
            final(self).wf(),
            rows_changed_where(
                old(self).target_rows(),
                final(self).target_rows(),
                id@,
                |o: WatchTarget, n: WatchTarget|
                    status_set(
                        o,
                        n,
                        state@,
                        detail@,
                        str_opt(next_check_at),
                        str_opt(active_job_id),
                        timestamp@,
                    ),
            ),
            final(self).job_rows() == old(self).job_rows(),
            final(self).saved_settings() == old(self).saved_settings(),
            final(self).default_settings() == old(self).default_settings(),
    {
        if let Some(i) = self.target_index(id) {
            let o = self.targets[i].clone();
            let n = WatchTarget {
                id: o.id,
                name: o.name,
                url: o.url,
                enabled: o.enabled,
                state: state.to_owned(),
                status_detail: detail.to_owned(),
                next_check_at: own_opt(next_check_at),
                last_checked_at: Some(timestamp.to_owned()),
                last_recording_at: o.last_recording_at,
                active_job_id: own_opt(active_job_id),
                created_at: o.created_at,
            };
            let ghost before = *self;
            self.targets.set(i, n);
            proof {
                assert forall|k: int| 0 <= k < before.target_rows().len() implies #[trigger] self.targets@[k].id@
                    == before.target_rows()[k].id@ by {}
                lemma_targets_kept(before.target_rows(), self.targets@, self.jobs@);
                assert forall|k: int| 0 <= k < before.target_rows().len() && k != i implies before.target_rows()[k].id@
                    != id@ by {
                    if before.target_rows()[k].id@ == id@ {
                        before.lemma_same_target_id(i as int, k);
                    }
                }
            }
        }
    }

    /// Records the status of the stream with identifier `id` as checked now.
    pub fn set_target_status(
        &mut self,
        id: &str,
        state: &str,
        detail: &str,
        next_check_at: Option<&str>,
        active_job_id: Option<&str>,
    )
        requires
            old(self).wf(),
        ensures
            final(self).wf(),
            exists|ts: Seq<char>|
                rows_changed_where(
                    old(self).target_rows(),
                    final(self).target_rows(),
                    id@,
                    #[trigger] status_change(
                        state@,
                        detail@,
                        str_opt(next_check_at),
                        str_opt(active_job_id),
                        ts,
                    ),
                ),
            final(self).job_rows() == old(self).job_rows(),
            final(self).saved_settings() == old(self).saved_settings(),
            final(self).default_settings() == old(self).default_settings(),
    {
        let timestamp = current_time();
        self.set_target_status_at(id, state, detail, next_check_at, active_job_id, timestamp.as_str());
        assert(status_change(
            state@,
            detail@,
            str_opt(next_check_at),
            str_opt(active_job_id),
            timestamp@,
        ) == (|o: WatchTarget, n: WatchTarget|
            status_set(
                o,
                n,
                state@,
                detail@,
                str_opt(next_check_at),
                str_opt(active_job_id),
                timestamp@,
            )));
    }

    /// Puts the stream with identifier `target_id` back to watching after a recording that ended
    /// at `timestamp` with `message`.
    pub fn target_recording_finished_at(&mut self, target_id: &str, message: &str, timestamp: &str)
        requires
            old(self).wf(),
        ensures
            final(self).wf(),
            rows_changed_where(
                old(self).target_rows(),
                final(self).target_rows(),
                target_id@,
                |o: WatchTarget, n: WatchTarget| recording_finished(o, n, message@, timestamp@),
            ),
            final(self).job_rows() == old(self).job_rows(),
            final(self).saved_settings() == old(self).saved_settings(),
            final(self).default_settings() == old(self).default_settings(),
    {
        if let Some(i) = self.target_index(target_id) {
            let o = self.targets[i].clone();
            let n = WatchTarget {
                id: o.id,
                name: o.name,
                url: o.url,
                enabled: o.enabled,
                state: "Watching".to_owned(),
                status_detail: message.to_owned(),
                next_check_at: Some(timestamp.to_owned()),
                last_checked_at: o.last_checked_at,
                last_recording_at: Some(timestamp.to_owned()),
                active_job_id: None,
                created_at: o.created_at,
            };
            let ghost before = *self;
            self.targets.set(i, n);
            proof {
                assert forall|k: int| 0 <= k < before.target_rows().len() implies #[trigger] self.targets@[k].id@
                    == before.target_rows()[k].id@ by {}
                lemma_targets_kept(before.target_rows(), self.targets@, self.jobs@);
                assert forall|k: int| 0 <= k < before.target_rows().len() && k != i implies before.target_rows()[k].id@
                    != target_id@ by {
                    if before.target_rows()[k].id@ == target_id@ {
                        before.lemma_same_target_id(i as int, k);
                    }
                }
            }
        }
    }

    /// Puts the stream with identifier `target_id` back to watching after a recording that ended
    /// now with `message`.
    pub fn target_recording_finished(&mut self, target_id: &str, message: &str)
        requires
            old(self).wf(),
        ensures
            final(self).wf(),
            exists|ts: Seq<char>|
                rows_changed_where(
                    old(self).target_rows(),
                    final(self).target_rows(),
                    target_id@,
                    #[trigger] finished_change(message@, ts),
                ),
            final(self).job_rows() == old(self).job_rows(),
            final(self).saved_settings() == old(self).saved_settings(),
            final(self).default_settings() == old(self).default_settings(),
    {
        let timestamp = current_time();
        self.target_recording_finished_at(target_id, message, timestamp.as_str());
        assert(finished_change(message@, timestamp@) == (|o: WatchTarget, n: WatchTarget|
            recording_finished(o, n, message@, timestamp@)));
    }

    /// The recording at position `k` with the name of its stream, if the stream exists.
    fn joined_at(&self, k: usize) -> (r: Option<RecordingJob>)
        requires
            self.wf(),
            k < self.job_rows().len(),
        ensures
            r == if has_target(self.target_rows(), self.job_rows()[k as int].target_id@) {
                Some(
                    join_row(
                        self.job_rows()[k as int],
                        target_of(self.target_rows(), self.job_rows()[k as int].target_id@),
                    ),
                )
            } else {
                None
            },
    {
        let job = &self.jobs[k];
        match self.target_index(job.target_id.as_str()) {
            Some(t) => {
                proof {
                    self.lemma_target_of_index(t as int);
                }
                Some(
                    RecordingJob {
                        id: job.id.clone(),
                        target_id: job.target_id.clone(),
                        target_name: self.targets[t].name.clone(),
                        state: job.state.clone(),
                        started_at: job.started_at.clone(),
                        finished_at: copy_opt(&job.finished_at),
                        output_path: copy_opt(&job.output_path),
                        message: job.message.clone(),
                        process_id: job.process_id,
                    },
                )
            },
            None => None,
        }
    }

    /// The recording with identifier `id`, with the name of its stream, if both exist.
    pub fn job(&self, id: &str) -> (r: Option<RecordingJob>)
        requires
            self.wf(),
        ensures
            r == if has_job(self.job_rows(), id@) && has_target(
                self.target_rows(),
                job_of(self.job_rows(), id@).target_id@,
            ) {
                Some(
                    join_row(
                        job_of(self.job_rows(), id@),
                        target_of(self.target_rows(), job_of(self.job_rows(), id@).target_id@),
                    ),
                )
            } else {
                None
            },
    {
        match self.job_index(id) {
            Some(k) => {
                proof {
                    self.lemma_job_of_index(k as int);
                }
                self.joined_at(k)
            },
            None => None,
        }
    }

    /// Starts a recording of the stream `target_id` under identifier `id` at time `timestamp`.
    pub fn create_job_at(
        &mut self,
        id: &str,
        timestamp: &str,
        target_id: &str,
        output_path: Option<&str>,
    ) -> (r: Result<RecordingJob, String>)
        requires
            old(self).wf(),
        ensures
            final(self).wf(),
            create_job_outcome(
                old(self).target_rows(),
                old(self).job_rows(),
                final(self).job_rows(),
                r,
                id@,
                timestamp@,
                target_id@,
                str_opt(output_path),
            ),
            final(self).target_rows() == old(self).target_rows(),
            final(self).saved_settings() == old(self).saved_settings(),
            final(self).default_settings() == old(self).default_settings(),
    {
        if self.job_index(id).is_some() {
            return Err("UNIQUE constraint failed: recording_jobs.id".to_owned());
        }
        if self.target_index(target_id).is_none() {
            return Err("FOREIGN KEY constraint failed".to_owned());
        }
        let job = JobRecord {
            id: id.to_owned(),
            target_id: target_id.to_owned(),
            state: "Recording".to_owned(),
            started_at: timestamp.to_owned(),
            finished_at: None,
            output_path: own_opt(output_path),
            message: "Recording started".to_owned(),
            process_id: None,
        };
        let ghost before = self.jobs@;
        self.jobs.push(job);
        proof {
            assert(self.jobs@.drop_last() =~= before);
            assert forall|a: int, b: int| 0 <= a < b < self.jobs@.len() implies self.jobs@[a].id@
                != self.jobs@[b].id@ by {
                if b == before.len() {
                    assert(before[a].id@ != id@);
                }
            }
        }
        let k = self.jobs.len() - 1;
        let r = self.joined_at(k);
        match r {
            Some(j) => Ok(j),
            None => Err("Created job was not found".to_owned()),
        }
    }

    /// Starts a recording of the stream `target_id` under a fresh identifier, now.
    pub fn create_job(&mut self, target_id: &str, output_path: Option<&str>) -> (r: Result<
        RecordingJob,
        String,
    >)
        requires
            old(self).wf(),
        ensures
            final(self).wf(),
            exists|id: Seq<char>, ts: Seq<char>|
                #[trigger] create_job_outcome(
                    old(self).target_rows(),
                    old(self).job_rows(),
                    final(self).job_rows(),
                    r,
                    id,
                    ts,
                    target_id@,
                    str_opt(output_path),
                ),
            !has_target(old(self).target_rows(), target_id@) ==> r is Err,
            final(self).target_rows() == old(self).target_rows(),
            final(self).saved_settings() == old(self).saved_settings(),
            final(self).default_settings() == old(self).default_settings(),
    {
        let id = new_record_id();
        let timestamp = current_time();
        let r = self.create_job_at(id.as_str(), timestamp.as_str(), target_id, output_path);
        assert(create_job_outcome(
            old(self).target_rows(),
            old(self).job_rows(),
            self.job_rows(),
            r,
            id@,
            timestamp@,
            target_id@,
            str_opt(output_path),
        ));
        r
    }

    /// Replaces the recording at position `k` by `n`, keeping its identifier.
    fn replace_job(&mut self, k: usize, n: JobRecord)
        requires
            old(self).wf(),
            k < old(self).job_rows().len(),
            n.id == old(self).job_rows()[k as int].id,
            n.target_id == old(self).job_rows()[k as int].target_id,
        ensures
            final(self).wf(),
            final(self).job_rows() == old(self).job_rows().update(k as int, n),
            forall|m: int|
                0 <= m < old(self).job_rows().len() && m != k ==> old(self).job_rows()[m].id@
                    != old(self).job_rows()[k as int].id@,
            final(self).target_rows() == old(self).target_rows(),
            final(self).saved_settings() == old(self).saved_settings(),
            final(self).default_settings() == old(self).default_settings(),
    {
        let ghost before = *self;
        self.jobs.set(k, n);
        proof {
            assert forall|m: int| 0 <= m < self.jobs@.len() implies has_target(
                self.targets@,
                #[trigger] self.jobs@[m].target_id@,
            ) by {
                if m != k {
                    assert(self.jobs@[m] == before.job_rows()[m]);
                }
            }
            assert forall|m: int|
                0 <= m < before.job_rows().len() && m != k implies before.job_rows()[m].id@
                    != before.job_rows()[k as int].id@ by {
                if before.job_rows()[m].id@ == before.job_rows()[k as int].id@ {
                    before.lemma_same_job_id(k as int, m);
                }
            }
        }
    }

    /// Ends the recording with identifier `id` at `timestamp` in `state` with `message`, keeping
    /// its output path unless one is given.
    pub fn finish_job_at(
        &mut self,
        id: &str,
        state: &str,
        message: &str,
        output_path: Option<&str>,
        timestamp: &str,
    )
        requires
            old(self).wf(),
        ensures
            final(self).wf(),
            jobs_changed_where(
                old(self).job_rows(),
                final(self).job_rows(),
                id@,
                finish_change(state@, message@, str_opt(output_path), timestamp@),
            ),
            final(self).target_rows() == old(self).target_rows(),
            final(self).saved_settings() == old(self).saved_settings(),
            final(self).default_settings() == old(self).default_settings(),
    {
        if let Some(k) = self.job_index(id) {
            let o = self.jobs[k].clone();
            let path = match output_path {
                Some(p) => Some(p.to_owned()),
                None => copy_opt(&o.output_path),
            };
            let n = JobRecord {
                id: o.id,
                target_id: o.target_id,
                state: state.to_owned(),
                started_at: o.started_at,
                finished_at: Some(timestamp.to_owned()),
                output_path: path,
                message: message.to_owned(),
                process_id: o.process_id,
            };
            self.replace_job(k, n);
        }
    }

    /// Ends the recording with identifier `id` now, in `state` with `message`, keeping its output
    /// path unless one is given.
    pub fn finish_job(&mut self, id: &str, state: &str, message: &str, output_path: Option<&str>)
        requires
            old(self).wf(),
        ensures
            final(self).wf(),
            exists|ts: Seq<char>|
                jobs_changed_where(
                    old(self).job_rows(),
                    final(self).job_rows(),
                    id@,
                    #[trigger] finish_change(state@, message@, str_opt(output_path), ts),
                ),
            final(self).target_rows() == old(self).target_rows(),
            final(self).saved_settings() == old(self).saved_settings(),
            final(self).default_settings() == old(self).default_settings(),
    {
        let timestamp = current_time();
        self.finish_job_at(id, state, message, output_path, timestamp.as_str());
    }

    /// Records where the recording with identifier `id` was saved.
    pub fn set_job_output_path(&mut self, id: &str, output_path: &str)
        requires
            old(self).wf(),
        ensures
            final(self).wf(),
            jobs_changed_where(
                old(self).job_rows(),
                final(self).job_rows(),
                id@,
                |o: JobRecord, n: JobRecord|
                    n == JobRecord { output_path: n.output_path, ..o } && text_opt(n.output_path)
                        == Some(output_path@),
            ),
            final(self).target_rows() == old(self).target_rows(),
            final(self).saved_settings() == old(self).saved_settings(),
            final(self).default_settings() == old(self).default_settings(),
    {
        if let Some(k) = self.job_index(id) {
            let o = self.jobs[k].clone();
            let n = JobRecord {
                id: o.id,
                target_id: o.target_id,
                state: o.state,
                started_at: o.started_at,
                finished_at: o.finished_at,
                output_path: Some(output_path.to_owned()),
                message: o.message,
                process_id: o.process_id,
            };
            self.replace_job(k, n);
        }
    }

    /// Records the process that runs the recording with identifier `id`.
    pub fn set_job_pid(&mut self, id: &str, pid: u32)
        requires
            old(self).wf(),
        ensures
            final(self).wf(),
            jobs_changed_where(
                old(self).job_rows(),
                final(self).job_rows(),
                id@,
                |o: JobRecord, n: JobRecord| n == JobRecord { process_id: Some(pid), ..o },
            ),
            final(self).target_rows() == old(self).target_rows(),
            final(self).saved_settings() == old(self).saved_settings(),
            final(self).default_settings() == old(self).default_settings(),
    {
        if let Some(k) = self.job_index(id) {
            let o = self.jobs[k].clone();
            let n = JobRecord {
                id: o.id,
                target_id: o.target_id,
                state: o.state,
                started_at: o.started_at,
                finished_at: o.finished_at,
                output_path: o.output_path,
                message: o.message,
                process_id: Some(pid),
            };
            self.replace_job(k, n);
        }
    }

    /// The history, newest first by start time, at most `limit` recordings, each with the name of
    /// its stream; recordings whose stream is gone are left out.
    pub fn list_jobs(&self, limit: usize) -> (r: Vec<RecordingJob>)
        requires
            self.wf(),
        ensures
            latest_listing(r@, self.target_rows(), self.job_rows(), limit as int),
            forall|i: int|
                0 <= i < r@.len() ==> joined_history(self.target_rows(), self.job_rows()).contains(
                    #[trigger] r@[i],
                ),
    {
        let mut items: Vec<RecordingJob> = Vec::new();
        let mut keys: Vec<Vec<u32>> = Vec::new();
        let mut k: usize = 0;
        while k < self.jobs.len()
            invariant
                self.wf(),
                k <= self.jobs.len(),
                items@ == joined_history(self.targets@, self.jobs@.take(k as int)),
                keys.len() == items.len(),
                forall|m: int| 0 <= m < items.len() ==> #[trigger] keys@[m]@ == job_key(items@[m]),
            decreases self.jobs.len() - k,
        {
            assert(self.jobs@.take(k + 1).drop_last() =~= self.jobs@.take(k as int));
            match self.joined_at(k) {
                Some(j) => {
                    let key = binary_codes_of(j.started_at.as_str());
                    items.push(j);
                    keys.push(key);
                },
                None => {},
            }
            k = k + 1;
        }
        assert(self.jobs@.take(k as int) =~= self.jobs@);
        let mut sorted = sort_by_codes(items, keys, Ghost(|j: RecordingJob| job_key(j)), true);
        let ghost full = sorted@;
        let n = if limit < sorted.len() {
            limit
        } else {
            sorted.len()
        };
        sorted.truncate(n);
        assert(sorted@ =~= full.take(min_count(limit as int, full.len() as int)));
        proof {
            let joined = joined_history(self.target_rows(), self.job_rows());
            assert forall|i: int| 0 <= i < sorted@.len() implies joined.contains(
                #[trigger] sorted@[i],
            ) by {
                assert(full[i] == sorted@[i]);
                assert(full.contains(full[i]));
                assert(full.to_multiset().count(full[i]) > 0);
                assert(joined.to_multiset().count(full[i]) > 0);
            }
        }
        sorted
    }
}

/// The rows of a database, written out and loaded again, are accepted as they are: a reload
/// gives back the same watch list, history and settings.
pub proof fn law_reload_restores(
    db: Database,
    targets: Seq<WatchTarget>,
    jobs: Seq<JobRecord>,
    reloaded: Database,
)
    requires
        db.wf(),
        targets == db.target_rows(),
        jobs == db.job_rows(),
        reloaded.target_rows() == targets,
        reloaded.job_rows() == jobs,
        reloaded.saved_settings() == db.saved_settings(),
    ensures
        keys_unique(targets, jobs),
        jobs_have_targets(targets, jobs),
        reloaded.wf(),
        settings_value(reloaded) == match db.saved_settings() {
            Some(s) => s,
            None => reloaded.default_settings(),
        },
{
}

/// A recording whose stream exists is in the joined history, joined with its stream.
proof fn lemma_joined_contains(targets: Seq<WatchTarget>, jobs: Seq<JobRecord>, k: int)
    requires
        0 <= k < jobs.len(),
        has_target(targets, jobs[k].target_id@),
    ensures
        joined_history(targets, jobs).contains(
            join_row(jobs[k], target_of(targets, jobs[k].target_id@)),
        ),
    decreases jobs.len(),
{
    let x = join_row(jobs[k], target_of(targets, jobs[k].target_id@));
    let rest = joined_history(targets, jobs.drop_last());
    if k == jobs.len() - 1 {
        assert(rest.push(x)[rest.len() as int] == x);
    } else {
        lemma_joined_contains(targets, jobs.drop_last(), k);
        let i = choose|i: int| 0 <= i < rest.len() && rest[i] == x;
        let last = jobs.last();
        if has_target(targets, last.target_id@) {
            assert(rest.push(join_row(last, target_of(targets, last.target_id@)))[i] == x);
        }
    }
}

/// The joined history is no longer than the history.
proof fn lemma_joined_len(targets: Seq<WatchTarget>, jobs: Seq<JobRecord>)
    ensures
        joined_history(targets, jobs).len() <= jobs.len(),
    decreases jobs.len(),
{
    if jobs.len() > 0 {
        lemma_joined_len(targets, jobs.drop_last());
    }
}

/// What `job` finds is what a listing long enough for the whole history gives under that
/// identifier: a stored recording (whose stream is always stored) is listed, joined with its
/// stream, and every listed recording with its identifier is that one.
pub proof fn law_job_is_listed(db: Database, id: Seq<char>, limit: int, listed: Seq<RecordingJob>)
    requires
        db.wf(),
        limit >= db.job_rows().len(),
        latest_listing(listed, db.target_rows(), db.job_rows(), limit),
        has_job(db.job_rows(), id),
    ensures
        has_target(db.target_rows(), job_of(db.job_rows(), id).target_id@),
        listed.contains(
            join_row(
                job_of(db.job_rows(), id),
                target_of(db.target_rows(), job_of(db.job_rows(), id).target_id@),
            ),
        ),
        forall|i: int|
            0 <= i < listed.len() && (#[trigger] listed[i]).id@ == id ==> listed[i] == join_row(
                job_of(db.job_rows(), id),
                target_of(db.target_rows(), job_of(db.job_rows(), id).target_id@),
            ),
{
    broadcast use {vstd::seq_lib::group_to_multiset_ensures, vstd::multiset::group_multiset_axioms};

    let targets = db.target_rows();
    let jobs = db.job_rows();
    let k = choose|k: int| 0 <= k < jobs.len() && jobs[k].id@ == id;
    db.lemma_job_of_index(k);
    let x = join_row(jobs[k], target_of(targets, jobs[k].target_id@));
    let joined = joined_history(targets, jobs);
    lemma_joined_contains(targets, jobs, k);
    lemma_joined_len(targets, jobs);
    let full = choose|full: Seq<RecordingJob>|
        {
            &&& #[trigger] full.to_multiset() == joined.to_multiset()
            &&& sorted_by(full, |j: RecordingJob| job_key(j), true)
            &&& listed == full.take(min_count(limit, full.len() as int))
        };
    assert(full.len() == full.to_multiset().len());
    assert(joined.len() == joined.to_multiset().len());
    assert(listed =~= full);
    assert(joined.to_multiset().count(x) > 0);
    assert(full.to_multiset().count(x) > 0);
    assert forall|i: int| 0 <= i < listed.len() && (#[trigger] listed[i]).id@ == id implies listed[i]
        == x by {
        let y = listed[i];
        assert(full.contains(y));
        assert(full.to_multiset().count(y) > 0);
        assert(joined.contains(y));
        lemma_joined_member(targets, jobs, y);
        let m = choose|m: int|
            0 <= m < jobs.len() && has_target(targets, jobs[m].target_id@) && y == join_row(
                #[trigger] jobs[m],
                target_of(targets, jobs[m].target_id@),
            );
        db.lemma_same_job_id(m, k);
    }
}

/// Settings read back are the settings saved last.
pub proof fn law_read_after_save(db: Database, saved: AppSettings)
    requires
        db.saved_settings() == Some(saved),
    ensures
        settings_value(db) == saved,
{
}

/// A stream that an insert added can be looked up by its identifier and its URL, and the watch
/// list grew by one.
pub proof fn law_inserted_target_is_found(
    before: Seq<WatchTarget>,
    after: Seq<WatchTarget>,
    r: Result<WatchTarget, String>,
    id: Seq<char>,
    ts: Seq<char>,
    name: Seq<char>,
    url: Seq<char>,
)
    requires
        keys_unique(after, Seq::empty()),
        insert_outcome(before, after, r, id, ts, name, url),
        r is Ok,
    ensures
        has_target(after, id),
        target_of(after, id) == r->Ok_0,
        has_url(after, url),
        after.len() == before.len() + 1,
{
    let t = r->Ok_0;
    let last = after.len() - 1;
    assert(after[last] == t);
    assert(0 <= last < after.len() && after[last].id@ == id);
    let k = choose|k: int| 0 <= k < after.len() && after[k].id@ == id;
    if k != last {
        assert(after[k].id@ != after[last].id@);
    }
}

/// An insert of a URL that is already on the watch list is refused with the duplicate message
/// and changes nothing.
pub proof fn law_duplicate_url_refused(
    before: Seq<WatchTarget>,
    after: Seq<WatchTarget>,
    r: Result<WatchTarget, String>,
    id: Seq<char>,
    ts: Seq<char>,
    name: Seq<char>,
    url: Seq<char>,
)
    requires
        has_url(before, url),
        insert_outcome(before, after, r, id, ts, name, url),
    ensures
        r matches Err(e) && e@ == duplicate_url_message(),
        after == before,
{
}

/// Once a stream is removed, neither it nor any recording of it is left, and every other stream
/// stays.
pub proof fn law_remove_cascades(
    before_targets: Seq<WatchTarget>,
    before_jobs: Seq<JobRecord>,
    id: Seq<char>,
)
    ensures
        !has_target(before_targets.filter(keeps_target(id)), id),
        forall|k: int|
            0 <= k < before_jobs.filter(keeps_job(id)).len() ==> (
            #[trigger] before_jobs.filter(keeps_job(id))[k]).target_id@ != id,
        forall|k: int|
            0 <= k < before_targets.len() && before_targets[k].id@ != id ==> before_targets.filter(
                keeps_target(id),
            ).contains(#[trigger] before_targets[k]),
{
    let pt = keeps_target(id);
    let pj = keeps_job(id);
    let kept = before_targets.filter(pt);
    if has_target(kept, id) {
        let k = choose|k: int| 0 <= k < kept.len() && kept[k].id@ == id;
        before_targets.lemma_filter_pred(pt, k);
    }
    assert forall|k: int| 0 <= k < before_jobs.filter(pj).len() implies (
    #[trigger] before_jobs.filter(pj)[k]).target_id@ != id by {
        before_jobs.lemma_filter_pred(pj, k);
    }
    assert forall|k: int| 0 <= k < before_targets.len() && before_targets[k].id@ != id implies kept.contains(
        #[trigger] before_targets[k],
    ) by {
        before_targets.lemma_filter_contains(pt, k);
    }
}

} // verus!
