use live_downloader::runtime::EngineRuntime;

#[test]
fn scheduler_is_spawned_once() {
    let mut runtime = EngineRuntime::new();
    assert!(!runtime.running());
    assert!(runtime.start());
    assert!(runtime.running());
    assert!(!runtime.start());
    let cancelled = runtime.pause_all();
    assert!(cancelled.is_empty());
    assert!(!runtime.running());
    assert!(!runtime.start());
}

#[test]
fn tracks_active_recordings() {
    let mut runtime = EngineRuntime::new();
    runtime.register_active("j1", "t1");
    runtime.register_active("j2", "t2");
    runtime.register_active("j3", "t1");
    assert_eq!(runtime.active_count(), 3);
    assert!(runtime.has_active_job("t1"));
    assert!(!runtime.has_active_job("t9"));
    assert_eq!(runtime.cancel_target("t1"), vec!["j1".to_owned(), "j3".to_owned()]);
    assert_eq!(runtime.stop_job("j2"), Ok(()));
    runtime.finish("j2");
    assert_eq!(
        runtime.stop_job("j2"),
        Err("That recording is no longer active.".to_owned())
    );
    assert!(!runtime.has_active_job("t2"));
    runtime.register_active("j1", "t5");
    assert_eq!(runtime.active_count(), 2);
    assert!(runtime.has_active_job("t5"));
    assert_eq!(runtime.pause_all(), vec!["j1".to_owned(), "j3".to_owned()]);
}

#[test]
fn summary_shows_next_check_only_while_running() {
    let mut runtime = EngineRuntime::new();
    let paused = runtime.summary(2, Some("soon".to_owned()), "Managed yt-dlp sidecar".to_owned());
    assert!(!paused.running);
    assert_eq!(paused.next_global_check_at, None);
    assert_eq!(paused.enabled_targets, 2);
    runtime.start();
    runtime.register_active("j", "t");
    let running = runtime.summary(2, Some("soon".to_owned()), "s".to_owned());
    assert!(running.running);
    assert_eq!(running.active_recordings, 1);
    assert_eq!(running.next_global_check_at.as_deref(), Some("soon"));
    assert_eq!(running.sidecar_status, "s");
}

#[test]
fn restarting_after_a_pause_spawns_no_second_scheduler() {
    let mut runtime = live_downloader::runtime::EngineRuntime::new();
    assert!(runtime.start());
    runtime.pause_all();
    assert!(!runtime.running());
    assert!(!runtime.start());
    assert!(runtime.running());
    assert!(!runtime.start());
}
