use live_downloader::engine::{
    append_managed_ffmpeg_location, command_source, exit_status_outcome, external_ytdlp_path,
    job_state_for_outcome, last_nonempty_line, probe_arguments, probe_follow_up,
    probe_interval_seconds, recording_arguments, recording_slot_available, receipt_file_name,
    scheduler_step, sidecar_event_outcome, sidecar_status, CommandSource, ProbeFollowUp,
    ProbeOutcome, SchedulerStep, SidecarEvent, TargetStatus,
};
use live_downloader::models::AppSettings;

#[test]
fn probe_outcomes_lead_to_recording_or_a_status() {
    assert_eq!(probe_follow_up(ProbeOutcome::Live), ProbeFollowUp::StartRecording);
    assert_eq!(
        probe_follow_up(ProbeOutcome::Offline),
        ProbeFollowUp::Show(TargetStatus {
            state: "Watching".to_owned(),
            detail: "Waiting for the stream to go live".to_owned(),
        })
    );
    assert_eq!(
        probe_follow_up(ProbeOutcome::Failed("boom".to_owned())),
        ProbeFollowUp::Show(TargetStatus {
            state: "Needs attention".to_owned(),
            detail: "boom".to_owned(),
        })
    );
    assert_eq!(
        probe_follow_up(ProbeOutcome::TimedOut),
        ProbeFollowUp::Show(TargetStatus {
            state: "Retrying".to_owned(),
            detail: "Live check timed out; the next scheduled check will retry".to_owned(),
        })
    );
}

#[test]
fn at_least_one_recording_may_always_run() {
    assert!(recording_slot_available(0, 0));
    assert!(!recording_slot_available(1, 0));
    assert!(recording_slot_available(2, 3));
    assert!(!recording_slot_available(3, 3));
}

#[test]
fn checks_are_at_least_thirty_seconds_apart() {
    let mut settings = AppSettings::with_download_directory("d".to_owned());
    settings.probe_interval_seconds = 5;
    assert_eq!(probe_interval_seconds(&settings), 30);
    assert_eq!(scheduler_step(true, Some(&settings)), SchedulerStep::CheckAll(30));
    settings.probe_interval_seconds = 90;
    assert_eq!(scheduler_step(true, Some(&settings)), SchedulerStep::CheckAll(90));
    assert_eq!(scheduler_step(false, Some(&settings)), SchedulerStep::Wait(1));
    assert_eq!(scheduler_step(true, None), SchedulerStep::Wait(5));
}

#[test]
fn chooses_where_yt_dlp_comes_from() {
    let mut settings = AppSettings::with_download_directory("d".to_owned());
    assert_eq!(external_ytdlp_path(&settings), None);
    settings.external_ytdlp_path = Some("   ".to_owned());
    assert_eq!(external_ytdlp_path(&settings), None);
    settings.external_ytdlp_path = Some("  C:\\yt-dlp.exe ".to_owned());
    assert_eq!(external_ytdlp_path(&settings).as_deref(), Some("C:\\yt-dlp.exe"));
    assert_eq!(command_source(None, false), Ok(CommandSource::Bundled));
    assert_eq!(
        command_source(Some("C:\\y.exe".to_owned()), true),
        Ok(CommandSource::External("C:\\y.exe".to_owned()))
    );
    assert_eq!(
        command_source(Some("C:\\y.exe".to_owned()), false),
        Err("The configured yt-dlp executable was not found at C:\\y.exe".to_owned())
    );
    assert_eq!(sidecar_status(&None, false, true), "Managed yt-dlp + FFmpeg sidecars");
    assert_eq!(sidecar_status(&None, false, false), "Managed yt-dlp sidecar");
    assert_eq!(sidecar_status(&Some("x".to_owned()), true, false), "External yt-dlp ready");
    assert_eq!(
        sidecar_status(&Some("x".to_owned()), false, false),
        "External yt-dlp path is unavailable"
    );
}

#[test]
fn builds_yt_dlp_arguments() {
    let mut args = vec!["a".to_owned()];
    append_managed_ffmpeg_location(&mut args, None);
    assert_eq!(args, vec!["a"]);
    append_managed_ffmpeg_location(&mut args, Some("C:\\app".to_owned()));
    assert_eq!(args, vec!["a", "--ffmpeg-location", "C:\\app"]);
    assert_eq!(
        probe_arguments("https://e.com/x", None),
        Ok(vec![
            "--no-cache".to_owned(),
            "--simulate".to_owned(),
            "--quiet".to_owned(),
            "--no-warnings".to_owned(),
            "https://e.com/x".to_owned(),
        ])
    );
    assert_eq!(
        probe_arguments("file:///x", None),
        Err("The stream URL must be an absolute HTTP or HTTPS URL.".to_owned())
    );
    assert_eq!(
        recording_arguments("T", "R", Some("F".to_owned()), "U"),
        vec![
            "--no-cache", "--newline", "--continue", "--output", "T", "--print-to-file",
            "after_move:filepath", "R", "--ffmpeg-location", "F", "U",
        ]
    );
    assert_eq!(receipt_file_name("j1"), "live-downloader-j1.path");
}

#[test]
fn reports_how_a_recording_ended() {
    assert_eq!(exit_status_outcome(true, Some(0)), "Recording completed");
    assert_eq!(exit_status_outcome(false, Some(1)), "yt-dlp exited with code Some(1)");
    assert_eq!(exit_status_outcome(false, Some(-7)), "yt-dlp exited with code Some(-7)");
    assert_eq!(exit_status_outcome(false, None), "yt-dlp exited with code None");
    assert_eq!(
        sidecar_event_outcome(SidecarEvent::Terminated(Some(0))).as_deref(),
        Some("Recording completed")
    );
    assert_eq!(
        sidecar_event_outcome(SidecarEvent::Terminated(Some(2147483647))).as_deref(),
        Some("yt-dlp exited with code 2147483647")
    );
    assert_eq!(
        sidecar_event_outcome(SidecarEvent::Terminated(None)).as_deref(),
        Some("yt-dlp process ended")
    );
    assert_eq!(
        sidecar_event_outcome(SidecarEvent::Error("x".to_owned())).as_deref(),
        Some("yt-dlp error: x")
    );
    assert_eq!(sidecar_event_outcome(SidecarEvent::Other), None);
    assert_eq!(job_state_for_outcome("Recording completed"), "Completed");
    assert_eq!(job_state_for_outcome("Cancelled by the user"), "Cancelled");
    assert_eq!(job_state_for_outcome("yt-dlp exited with code 1"), "Failed");
}

#[test]
fn finds_the_last_line_of_a_receipt() {
    assert_eq!(
        last_nonempty_line("C:\\a.mp4\r\nC:\\b.mp4\r\n\r\n  ").as_deref(),
        Some("C:\\b.mp4")
    );
    assert_eq!(last_nonempty_line("  only  ").as_deref(), Some("only"));
    assert_eq!(last_nonempty_line("\n \n"), None);
    assert_eq!(last_nonempty_line(""), None);
}
