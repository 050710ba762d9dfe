use live_downloader::database::Database;
use live_downloader::engine::ProbeOutcome;
use live_downloader::models::AppSettings;
use live_downloader::recorder::{
    begin_probe, prepare_recording, probe_finished, recording_ended, recording_started,
    reserve_slot,
};
use live_downloader::runtime::EngineRuntime;

fn database_with_stream() -> Database {
    let mut database =
        Database::new(AppSettings::with_download_directory("C:\\Recordings".to_owned()));
    database
        .insert_target_at("t1", "2026-07-13T00:00:00Z", "Chan", "https://www.twitch.tv/chan")
        .unwrap();
    database
}

#[test]
fn a_check_marks_the_stream_unless_it_is_recording() {
    let mut database = database_with_stream();
    let mut runtime = EngineRuntime::new();
    assert!(begin_probe(&mut database, &runtime, "t1", "2026-07-13T00:05:00Z"));
    let target = database.target("t1").unwrap();
    assert_eq!(target.state, "Checking");
    assert_eq!(target.status_detail, "Checking whether the stream is live");
    assert_eq!(target.next_check_at.as_deref(), Some("2026-07-13T00:05:00Z"));
    assert!(target.last_checked_at.is_some());

    runtime.register_active("j1", "t1");
    database.set_target_status_at("t1", "Recording", "r", None, Some("j1"), "2026-07-13T00:06:00Z");
    assert!(!begin_probe(&mut database, &runtime, "t1", "2026-07-13T00:10:00Z"));
    assert_eq!(database.target("t1").unwrap().state, "Recording");
}

#[test]
fn what_a_check_found_is_shown() {
    let mut database = database_with_stream();
    assert!(probe_finished(&mut database, "t1", ProbeOutcome::Live, "n"));
    assert_eq!(database.target("t1").unwrap().state, "Watching");

    assert!(!probe_finished(&mut database, "t1", ProbeOutcome::Offline, "n1"));
    let target = database.target("t1").unwrap();
    assert_eq!(target.state, "Watching");
    assert_eq!(target.status_detail, "Waiting for the stream to go live");
    assert_eq!(target.next_check_at.as_deref(), Some("n1"));
    assert_eq!(target.active_job_id, None);

    assert!(!probe_finished(&mut database, "t1", ProbeOutcome::Failed("boom".to_owned()), "n2"));
    let target = database.target("t1").unwrap();
    assert_eq!(target.state, "Needs attention");
    assert_eq!(target.status_detail, "boom");

    assert!(!probe_finished(&mut database, "t1", ProbeOutcome::TimedOut, "n3"));
    let target = database.target("t1").unwrap();
    assert_eq!(target.state, "Retrying");
    assert_eq!(
        target.status_detail,
        "Live check timed out; the next scheduled check will retry"
    );
}

#[test]
fn a_full_engine_queues_the_stream() {
    let mut database = database_with_stream();
    let mut runtime = EngineRuntime::new();
    assert!(reserve_slot(&mut database, &runtime, "t1", 0, "later"));
    runtime.register_active("j0", "other");
    assert!(!reserve_slot(&mut database, &runtime, "t1", 0, "later"));
    let target = database.target("t1").unwrap();
    assert_eq!(target.state, "Queued");
    assert_eq!(target.status_detail, "Waiting for a recording slot");
    assert_eq!(target.next_check_at.as_deref(), Some("later"));
    assert!(reserve_slot(&mut database, &runtime, "t1", 2, "later"));
}

#[test]
fn a_recording_is_prepared_started_and_ended() {
    let mut database = database_with_stream();
    let mut runtime = EngineRuntime::new();
    let target = database.target("t1").unwrap();
    let settings = AppSettings::with_download_directory("C:\\Recordings".to_owned());
    let launch = prepare_recording(
        &mut database,
        &target,
        &settings,
        "13-07-2026 22-42-15",
        "C:\\Temp\\",
        Some("C:\\app".to_owned()),
    )
    .unwrap();
    let receipt = format!("C:\\Temp\\live-downloader-{}.path", launch.job.id);
    assert_eq!(launch.receipt, receipt);
    assert_eq!(launch.job.state, "Recording");
    assert_eq!(launch.job.target_name, "Chan");
    assert_eq!(
        launch.arguments,
        vec![
            "--no-cache".to_owned(),
            "--newline".to_owned(),
            "--continue".to_owned(),
            "--output".to_owned(),
            "C:\\Recordings\\%(channel,uploader)s - 13-07-2026 22-42-15.%(ext)s".to_owned(),
            "--print-to-file".to_owned(),
            "after_move:filepath".to_owned(),
            receipt.clone(),
            "--ffmpeg-location".to_owned(),
            "C:\\app".to_owned(),
            "https://www.twitch.tv/chan".to_owned(),
        ]
    );

    let job_id = launch.job.id.clone();
    recording_started(&mut database, &mut runtime, &job_id, "t1", 4242);
    assert!(runtime.has_active_job("t1"));
    assert_eq!(database.job(&job_id).unwrap().process_id, Some(4242));
    let target = database.target("t1").unwrap();
    assert_eq!(target.state, "Recording");
    assert_eq!(target.active_job_id.as_deref(), Some(job_id.as_str()));
    assert_eq!(target.next_check_at, None);

    recording_ended(
        &mut database,
        &mut runtime,
        &job_id,
        "t1",
        "Recording completed",
        Some("C:\\Recordings\\chan.mp4"),
    );
    assert!(!runtime.has_active_job("t1"));
    assert_eq!(runtime.active_count(), 0);
    let job = database.job(&job_id).unwrap();
    assert_eq!(job.state, "Completed");
    assert_eq!(job.message, "Recording completed");
    assert_eq!(job.output_path.as_deref(), Some("C:\\Recordings\\chan.mp4"));
    assert!(job.finished_at.is_some());
    let target = database.target("t1").unwrap();
    assert_eq!(target.state, "Watching");
    assert_eq!(target.status_detail, "Recording completed");
    assert_eq!(target.active_job_id, None);
    assert_eq!(target.last_recording_at, target.next_check_at);
}

#[test]
fn an_ended_recording_keeps_a_known_path_and_reports_failures() {
    let mut database = database_with_stream();
    let mut runtime = EngineRuntime::new();
    database.create_job_at("j1", "2026-07-13T21:00:00Z", "t1", Some("C:\\r\\a.mp4")).unwrap();
    recording_started(&mut database, &mut runtime, "j1", "t1", 7);
    recording_ended(&mut database, &mut runtime, "j1", "t1", "yt-dlp exited with code 1", None);
    let job = database.job("j1").unwrap();
    assert_eq!(job.state, "Failed");
    assert_eq!(job.output_path.as_deref(), Some("C:\\r\\a.mp4"));

    database.create_job_at("j2", "2026-07-13T22:00:00Z", "t1", None).unwrap();
    recording_started(&mut database, &mut runtime, "j2", "t1", 8);
    recording_ended(&mut database, &mut runtime, "j2", "t1", "Cancelled by the user", None);
    assert_eq!(database.job("j2").unwrap().state, "Cancelled");
    assert_eq!(runtime.active_count(), 0);
}
