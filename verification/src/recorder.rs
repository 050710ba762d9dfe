//! The engine's steps that change the stored rows and the active recordings together: a check of
//! a stream, and the start and the end of a recording.
use vstd::prelude::*;

use crate::database::{
    create_job_outcome, finish_change, finished_change, jobs_changed_where, rows_changed_where,
    status_change, Database,
};
use crate::engine::{
    arg_texts, checking_status, ffmpeg_args, job_state_for_outcome, outcome_state,
    law_state_follows_outcome, probe_follow_up, queued_status, receipt_file_name, recording_arguments,
    recording_slot_available, recording_status, ProbeFollowUp, ProbeOutcome,
};
use crate::models::{str_opt, text_opt, AppSettings, JobRecord, RecordingJob, WatchTarget};
use crate::paths::{join_path, joined, recording_output_template};
use crate::runtime::{records_target, registered, ActiveJob, EngineRuntime};

verus! {

/// The state a stream shows after a check that did not find it live.
pub open spec fn shown_state(outcome: ProbeOutcome) -> Seq<char> {
    match outcome {
        ProbeOutcome::Offline => "Watching"@,
        ProbeOutcome::Failed(_) => "Needs attention"@,
        _ => "Retrying"@,
    }
}

/// The detail a stream shows after a check that did not find it live.
pub open spec fn shown_detail(outcome: ProbeOutcome) -> Seq<char> {
    match outcome {
        ProbeOutcome::Offline => "Waiting for the stream to go live"@,
        ProbeOutcome::Failed(e) => e@,
        _ => "Live check timed out; the next scheduled check will retry"@,
    }
}

/// Starts a check of the stream `target_id`. While the stream has an active recording the check
/// is dropped (`false`) and nothing changes; otherwise the stream shows that it is being checked,
/// with its next check at `next_check_at`.
pub fn begin_probe(
    database: &mut Database,
    runtime: &EngineRuntime,
    target_id: &str,
    next_check_at: &str,
) -> (r: bool)
    requires
        old(database).wf(),
    ensures
        final(database).wf(),
        r == !records_target(runtime.active_rows(), target_id@),
        !r ==> final(database).target_rows() == old(database).target_rows(),
        r ==> exists|ts: Seq<char>|
            rows_changed_where(
                old(database).target_rows(),
                final(database).target_rows(),
                target_id@,
                #[trigger] status_change(
                    "Checking"@,
                    "Checking whether the stream is live"@,
                    Some(next_check_at@),
                    None,
                    ts,
                ),
            ),
        final(database).job_rows() == old(database).job_rows(),
        final(database).saved_settings() == old(database).saved_settings(),
        final(database).default_settings() == old(database).default_settings(),
{
    if runtime.has_active_job(target_id) {
        return false;
    }
    let status = checking_status();
    database.set_target_status(
        target_id,
        status.state.as_str(),
        status.detail.as_str(),
        Some(next_check_at),
        None,
    );
    true
}

/// Records what a check of the stream `target_id` found. A live stream is to be recorded
/// (`true`) and nothing changes; otherwise the stream shows why not (see `shown_state` and
/// `shown_detail`), with its next check at `next_check_at`.
pub fn probe_finished(
    database: &mut Database,
    target_id: &str,
    outcome: ProbeOutcome,
    next_check_at: &str,
) -> (start: bool)
    requires
        old(database).wf(),
    ensures
        final(database).wf(),
        start == (outcome is Live),
        start ==> final(database).target_rows() == old(database).target_rows(),
        !start ==> exists|ts: Seq<char>|
            rows_changed_where(
                old(database).target_rows(),
                final(database).target_rows(),
                target_id@,
                #[trigger] status_change(
                    shown_state(outcome),
                    shown_detail(outcome),
                    Some(next_check_at@),
                    None,
                    ts,
                ),
            ),
        final(database).job_rows() == old(database).job_rows(),
        final(database).saved_settings() == old(database).saved_settings(),
        final(database).default_settings() == old(database).default_settings(),
{
    let ghost seen = outcome;
    match probe_follow_up(outcome) {
        ProbeFollowUp::StartRecording => true,
        ProbeFollowUp::Show(status) => {
            database.set_target_status(
                target_id,
                status.state.as_str(),
                status.detail.as_str(),
                Some(next_check_at),
                None,
            );
            assert(status.state@ == shown_state(seen) && status.detail@ == shown_detail(seen));
            false
        },
    }
}

/// Whether a recording of the stream `target_id` may start while `runtime` runs its
/// recordings: at most `max_concurrent_recordings` run at once, and always one may. When none
/// may, the stream shows that it waits for a slot, with its next check at `retry_at`.
pub fn reserve_slot(
    database: &mut Database,
    runtime: &EngineRuntime,
    target_id: &str,
    max_concurrent_recordings: usize,
    retry_at: &str,
) -> (r: bool)
    requires
        old(database).wf(),
    ensures
        final(database).wf(),
        r == (runtime.active_rows().len() < if max_concurrent_recordings < 1 {
            1
        } else {
            max_concurrent_recordings
        }),
        r ==> final(database).target_rows() == old(database).target_rows(),
        !r ==> exists|ts: Seq<char>|
            rows_changed_where(
                old(database).target_rows(),
                final(database).target_rows(),
                target_id@,
                #[trigger] status_change(
                    "Queued"@,
                    "Waiting for a recording slot"@,
                    Some(retry_at@),
                    None,
                    ts,
                ),
            ),
        final(database).job_rows() == old(database).job_rows(),
        final(database).saved_settings() == old(database).saved_settings(),
        final(database).default_settings() == old(database).default_settings(),
{
    if recording_slot_available(runtime.active_count(), max_concurrent_recordings) {
        return true;
    }
    let status = queued_status();
    database.set_target_status(
        target_id,
        status.state.as_str(),
        status.detail.as_str(),
        Some(retry_at),
        None,
    );
    false
}

/// A recording about to be launched: its row, yt-dlp's arguments, and the receipt file in which
/// yt-dlp leaves the recording's final path.
#[derive(Debug, PartialEq, Eq)]
pub struct RecordingLaunch {
    pub job: RecordingJob,
    pub arguments: Vec<String>,
    pub receipt: String,
}

/// The stored recording of a launch, or the error that prevented it.
pub open spec fn launched_job(r: Result<RecordingLaunch, String>) -> Result<RecordingJob, String> {
    match r {
        Ok(l) => Ok(l.job),
        Err(e) => Err(e),
    }
}

/// The yt-dlp arguments of a recording of `url` into the download directory `directory` under
/// the name stamped `local_timestamp`, with its receipt at `receipt`.
pub open spec fn launch_arguments(
    directory: Seq<char>,
    local_timestamp: Seq<char>,
    receipt: Seq<char>,
    ffmpeg_directory: Option<Seq<char>>,
    url: Seq<char>,
) -> Seq<Seq<char>> {
    seq![
        "--no-cache"@,
        "--newline"@,
        "--continue"@,
        "--output"@,
        joined(directory, "%(channel,uploader)s - "@ + local_timestamp + ".%(ext)s"@),
        "--print-to-file"@,
        "after_move:filepath"@,
        receipt,
    ] + ffmpeg_args(ffmpeg_directory) + seq![url]
}

/// Stores a new recording of `target` and gives what launching it takes: yt-dlp writes into the
/// download directory of `settings`, under a name stamped `local_timestamp`, and leaves the final
/// path in a receipt in `receipt_directory`; `ffmpeg_directory` is the bundled FFmpeg's, if any.
pub fn prepare_recording(
    database: &mut Database,
    target: &WatchTarget,
    settings: &AppSettings,
    local_timestamp: &str,
    receipt_directory: &str,
    ffmpeg_directory: Option<String>,
) -> (r: Result<RecordingLaunch, String>)
    requires
        old(database).wf(),
    ensures
        final(database).wf(),
        exists|id: Seq<char>, ts: Seq<char>|
            #[trigger] create_job_outcome(
                old(database).target_rows(),
                old(database).job_rows(),
                final(database).job_rows(),
                launched_job(r),
                id,
                ts,
                target.id@,
                None,
            ),
        r matches Ok(l) ==> {
            &&& l.receipt@ == joined(receipt_directory@, "live-downloader-"@ + l.job.id@ + ".path"@)
            &&& arg_texts(l.arguments@) == launch_arguments(
                settings.download_directory@,
                local_timestamp@,
                l.receipt@,
                text_opt(ffmpeg_directory),
                target.url@,
            )
        },
        final(database).target_rows() == old(database).target_rows(),
        final(database).saved_settings() == old(database).saved_settings(),
        final(database).default_settings() == old(database).default_settings(),
{
    let template = recording_output_template(settings.download_directory.as_str(), local_timestamp);
    let created = database.create_job(target.id.as_str(), None);
    let job = match created {
        Ok(job) => job,
        Err(e) => {
            assert(launched_job(Err(e)) == created);
            return Err(e);
        },
    };
    let name = receipt_file_name(job.id.as_str());
    let receipt = join_path(receipt_directory, name.as_str());
    let arguments = recording_arguments(
        template.as_str(),
        receipt.as_str(),
        ffmpeg_directory,
        target.url.as_str(),
    );
    let r = Ok(RecordingLaunch { job, arguments, receipt });
    assert(launched_job(r) == created);
    r
}

/// Records that the recording `job_id` of the stream `target_id` runs as process `pid`: the
/// process is stored with the recording, the recording is active, and the stream shows that it is
/// being recorded.
pub fn recording_started(
    database: &mut Database,
    runtime: &mut EngineRuntime,
    job_id: &str,
    target_id: &str,
    pid: u32,
)
    requires
        old(database).wf(),
        old(runtime).wf(),
    ensures
        final(database).wf(),
        final(runtime).wf(),
        jobs_changed_where(
            old(database).job_rows(),
            final(database).job_rows(),
            job_id@,
            |o: JobRecord, n: JobRecord| n == JobRecord { process_id: Some(pid), ..o },
        ),
        registered(old(runtime).active_rows(), final(runtime).active_rows(), job_id@, target_id@),
        exists|ts: Seq<char>|
            rows_changed_where(
                old(database).target_rows(),
                final(database).target_rows(),
                target_id@,
                #[trigger] status_change(
                    "Recording"@,
                    "Recording in the background"@,
                    None,
                    Some(job_id@),
                    ts,
                ),
            ),
        final(database).saved_settings() == old(database).saved_settings(),
        final(database).default_settings() == old(database).default_settings(),
        final(runtime).is_running() == old(runtime).is_running(),
        final(runtime).scheduler_is_started() == old(runtime).scheduler_is_started(),
{
    database.set_job_pid(job_id, pid);
    runtime.register_active(job_id, target_id);
    let status = recording_status();
    database.set_target_status(
        target_id,
        status.state.as_str(),
        status.detail.as_str(),
        None,
        Some(job_id),
    );
}

/// Records the end of the recording `job_id` of the stream `target_id` with `outcome`: the
/// recording is finished in the state its outcome gives (see `outcome_state`), with the final
/// path when yt-dlp left one; the stream goes back to watching; the recording is no longer
/// active.
pub fn recording_ended(
    database: &mut Database,
    runtime: &mut EngineRuntime,
    job_id: &str,
    target_id: &str,
    outcome: &str,
    output_path: Option<&str>,
)
    requires
        old(database).wf(),
        old(runtime).wf(),
    ensures
        final(database).wf(),
        final(runtime).wf(),
        exists|ts: Seq<char>|
            jobs_changed_where(
                old(database).job_rows(),
                final(database).job_rows(),
                job_id@,
                #[trigger] finish_change(
                    outcome_state(outcome@),
                    outcome@,
                    str_opt(output_path),
                    ts,
                ),
            ),
        exists|ts: Seq<char>|
            rows_changed_where(
                old(database).target_rows(),
                final(database).target_rows(),
                target_id@,
                #[trigger] finished_change(outcome@, ts),
            ),
        final(runtime).active_rows() == old(runtime).active_rows().filter(
            |a: ActiveJob| a.job_id@ != job_id@,
        ),
        final(database).saved_settings() == old(database).saved_settings(),
        final(database).default_settings() == old(database).default_settings(),
        final(runtime).is_running() == old(runtime).is_running(),
        final(runtime).scheduler_is_started() == old(runtime).scheduler_is_started(),
{
    let state = job_state_for_outcome(outcome);
    database.finish_job(job_id, state, outcome, output_path);
    database.target_recording_finished(target_id, outcome);
    runtime.finish(job_id);
}

/// Once a recording has ended, its stored state is `Completed` exactly when the outcome begins
/// with `Recording completed`, `Cancelled` exactly when it begins with `Cancelled` and not with
/// that, and `Failed` on every other outcome; the other recordings are unchanged.
pub proof fn law_ended_recording_state(
    before: Seq<JobRecord>,
    after: Seq<JobRecord>,
    job_id: Seq<char>,
    outcome: Seq<char>,
    output_path: Option<Seq<char>>,
    ts: Seq<char>,
)
    requires
        jobs_changed_where(
            before,
            after,
            job_id,
            finish_change(outcome_state(outcome), outcome, output_path, ts),
        ),
    ensures
        after.len() == before.len(),
        forall|k: int|
            0 <= k < before.len() && before[k].id@ == job_id ==> {
                &&& (#[trigger] after[k]).state@ == "Completed"@ <==> "Recording completed"@.is_prefix_of(
                    outcome,
                )
                &&& after[k].state@ == "Cancelled"@ <==> (!"Recording completed"@.is_prefix_of(
                    outcome,
                ) && "Cancelled"@.is_prefix_of(outcome))
                &&& after[k].state@ == "Failed"@ <==> (!"Recording completed"@.is_prefix_of(
                    outcome,
                ) && !"Cancelled"@.is_prefix_of(outcome))
                &&& after[k].message@ == outcome
            },
        forall|k: int| 0 <= k < before.len() && before[k].id@ != job_id ==> after[k] == before[k],
{
    law_state_follows_outcome(outcome, outcome_state(outcome));
    assert forall|k: int| 0 <= k < before.len() && before[k].id@ == job_id implies after[k].state@
        == outcome_state(outcome) && after[k].message@ == outcome by {
        assert(finish_change(outcome_state(outcome), outcome, output_path, ts)(before[k], after[k]));
    }
}

} // verus!
