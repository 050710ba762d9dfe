use live_downloader::database::Database;
use live_downloader::models::{AppSettings, WatchTarget};

fn fresh_database() -> Database {
    Database::new(AppSettings::with_download_directory("downloads".to_owned()))
}

#[test]
fn persists_targets_settings_and_job_lifecycle() {
    let mut database = fresh_database();

    let mut settings = database.settings();
    assert_eq!(settings.locale, "en");
    settings.locale = "pt-BR".to_owned();
    settings.probe_interval_seconds = 90;
    database.save_settings(&settings);
    assert_eq!(database.settings().probe_interval_seconds, 90);
    assert_eq!(database.settings().locale, "pt-BR");

    let target = database
        .insert_target("Example", "https://www.twitch.tv/example")
        .expect("target should insert");
    assert_eq!(database.list_targets().len(), 1);
    assert!(database
        .insert_target("Duplicate", "https://www.twitch.tv/example")
        .is_err());

    let job = database
        .create_job(&target.id, None)
        .expect("job should start");
    database.set_job_pid(&job.id, 42);
    let output_path = "C:\\Recordings\\live-downloader-test.mp4";
    database.finish_job(&job.id, "Completed", "Recording completed", Some(output_path));
    let history = database.list_jobs(10);
    assert_eq!(history[0].state, "Completed");
    assert_eq!(history[0].process_id, Some(42));
    assert_eq!(history[0].output_path.as_deref(), Some(output_path));
}

#[test]
fn first_settings_read_saves_the_defaults() {
    let mut database = fresh_database();
    let first = database.settings();
    assert_eq!(first.theme, "system");
    assert_eq!(first.download_directory, "downloads");
    assert_eq!(first.probe_interval_seconds, 300);
    assert_eq!(first.max_concurrent_probes, 6);
    assert_eq!(first.max_concurrent_recordings, 3);
    assert!(first.launch_to_tray);
    assert!(!first.start_with_windows);
    assert!(first.notifications_enabled);
    assert_eq!(first.retain_logs_days, 30);
    assert_eq!(first.external_ytdlp_path, None);
    assert_eq!(database.settings(), first);
}

#[test]
fn inserted_target_starts_watching_and_is_found() {
    let mut database = fresh_database();
    let target = database
        .insert_target_at("id-1", "2026-07-13T00:00:00+00:00", "Example", "https://example.com/a")
        .expect("target should insert");
    assert_eq!(target.id, "id-1");
    assert!(target.enabled);
    assert_eq!(target.state, "Watching");
    assert_eq!(target.status_detail, "Waiting for live stream");
    assert_eq!(target.next_check_at.as_deref(), Some("2026-07-13T00:00:00+00:00"));
    assert_eq!(target.created_at, "2026-07-13T00:00:00+00:00");
    assert_eq!(database.target("id-1"), Some(target));
    assert_eq!(database.target("missing"), None);
}

#[test]
fn duplicate_url_or_identifier_is_refused() {
    let mut database = fresh_database();
    database
        .insert_target_at("id-1", "t", "One", "https://example.com/a")
        .expect("first insert");
    let same_url = database.insert_target_at("id-2", "t", "Two", "https://example.com/a");
    assert_eq!(
        same_url,
        Err("That stream URL is already in the watch list.".to_owned())
    );
    let same_id = database.insert_target_at("id-1", "t", "Three", "https://example.com/b");
    assert_eq!(
        same_id,
        Err("That stream URL is already in the watch list.".to_owned())
    );
    assert_eq!(database.list_targets().len(), 1);
}

fn names(targets: &[WatchTarget]) -> Vec<&str> {
    targets.iter().map(|t| t.name.as_str()).collect()
}

#[test]
fn watch_list_is_enabled_first_then_by_name_ignoring_case() {
    let mut database = fresh_database();
    database.insert_target_at("1", "t", "beta", "https://e.com/1").unwrap();
    database.insert_target_at("2", "t", "Alpha", "https://e.com/2").unwrap();
    database.insert_target_at("3", "t", "gamma", "https://e.com/3").unwrap();
    database.insert_target_at("4", "t", "Delta", "https://e.com/4").unwrap();
    let mut gamma = database.target("3").unwrap();
    gamma.enabled = false;
    database.update_target(&gamma).unwrap();
    assert_eq!(names(&database.list_targets()), vec!["Alpha", "beta", "Delta", "gamma"]);
    let mut alpha = database.target("2").unwrap();
    alpha.enabled = false;
    database.update_target(&alpha).unwrap();
    assert_eq!(names(&database.list_targets()), vec!["beta", "Delta", "Alpha", "gamma"]);
    assert_eq!(names(&database.enabled_targets()), vec!["beta", "Delta"]);
}

#[test]
fn update_refuses_a_url_of_another_stream() {
    let mut database = fresh_database();
    database.insert_target_at("1", "t", "One", "https://e.com/1").unwrap();
    database.insert_target_at("2", "t", "Two", "https://e.com/2").unwrap();
    let mut two = database.target("2").unwrap();
    two.url = "https://e.com/1".to_owned();
    assert_eq!(
        database.update_target(&two),
        Err("UNIQUE constraint failed: watch_targets.url".to_owned())
    );
    two.url = "https://e.com/2b".to_owned();
    two.name = "Renamed".to_owned();
    assert_eq!(database.update_target(&two), Ok(()));
    let stored = database.target("2").unwrap();
    assert_eq!(stored.name, "Renamed");
    assert_eq!(stored.url, "https://e.com/2b");
    let mut ghost = two.clone();
    ghost.id = "missing".to_owned();
    assert_eq!(database.update_target(&ghost), Ok(()));
}

#[test]
fn removing_a_stream_removes_its_history() {
    let mut database = fresh_database();
    database.insert_target_at("1", "t", "One", "https://e.com/1").unwrap();
    database.insert_target_at("2", "t", "Two", "https://e.com/2").unwrap();
    database.create_job_at("j1", "2026-01-01T00:00:00Z", "1", None).unwrap();
    database.create_job_at("j2", "2026-01-02T00:00:00Z", "2", None).unwrap();
    database.remove_target("1");
    assert_eq!(database.target("1"), None);
    assert_eq!(database.job("j1"), None);
    let history = database.list_jobs(10);
    assert_eq!(history.len(), 1);
    assert_eq!(history[0].id, "j2");
    assert_eq!(history[0].target_name, "Two");
}

#[test]
fn recording_needs_an_existing_stream_and_a_fresh_identifier() {
    let mut database = fresh_database();
    assert_eq!(
        database.create_job_at("j1", "t", "nope", None),
        Err("FOREIGN KEY constraint failed".to_owned())
    );
    database.insert_target_at("1", "t", "One", "https://e.com/1").unwrap();
    let job = database.create_job_at("j1", "t0", "1", Some("C:\\out.mp4")).unwrap();
    assert_eq!(job.state, "Recording");
    assert_eq!(job.message, "Recording started");
    assert_eq!(job.target_name, "One");
    assert_eq!(job.output_path.as_deref(), Some("C:\\out.mp4"));
    assert_eq!(
        database.create_job_at("j1", "t1", "1", None),
        Err("UNIQUE constraint failed: recording_jobs.id".to_owned())
    );
}

#[test]
fn finishing_without_a_path_keeps_the_known_one() {
    let mut database = fresh_database();
    database.insert_target_at("1", "t", "One", "https://e.com/1").unwrap();
    database.create_job_at("j1", "t0", "1", Some("C:\\a.mp4")).unwrap();
    database.finish_job_at("j1", "Failed", "yt-dlp exited with code 1", None, "t9");
    let job = database.job("j1").unwrap();
    assert_eq!(job.state, "Failed");
    assert_eq!(job.finished_at.as_deref(), Some("t9"));
    assert_eq!(job.output_path.as_deref(), Some("C:\\a.mp4"));
    database.set_job_output_path("j1", "C:\\b.mp4");
    assert_eq!(database.job("j1").unwrap().output_path.as_deref(), Some("C:\\b.mp4"));
}

#[test]
fn history_is_newest_first_and_limited() {
    let mut database = fresh_database();
    database.insert_target_at("1", "t", "One", "https://e.com/1").unwrap();
    database.create_job_at("a", "2026-01-02T00:00:00Z", "1", None).unwrap();
    database.create_job_at("b", "2026-01-03T00:00:00Z", "1", None).unwrap();
    database.create_job_at("c", "2026-01-01T00:00:00Z", "1", None).unwrap();
    let ids: Vec<String> = database.list_jobs(10).into_iter().map(|j| j.id).collect();
    assert_eq!(ids, vec!["b", "a", "c"]);
    let ids: Vec<String> = database.list_jobs(2).into_iter().map(|j| j.id).collect();
    assert_eq!(ids, vec!["b", "a"]);
    assert!(database.list_jobs(0).is_empty());
}

#[test]
fn status_updates_touch_only_their_stream() {
    let mut database = fresh_database();
    database.insert_target_at("1", "t", "One", "https://e.com/1").unwrap();
    database.insert_target_at("2", "t", "Two", "https://e.com/2").unwrap();
    database.set_target_status_at("1", "Recording", "Recording in the background", None, Some("j1"), "t5");
    let one = database.target("1").unwrap();
    assert_eq!(one.state, "Recording");
    assert_eq!(one.next_check_at, None);
    assert_eq!(one.last_checked_at.as_deref(), Some("t5"));
    assert_eq!(one.active_job_id.as_deref(), Some("j1"));
    assert_eq!(database.target("2").unwrap().state, "Watching");
    database.target_recording_finished_at("1", "Recording completed", "t7");
    let one = database.target("1").unwrap();
    assert_eq!(one.state, "Watching");
    assert_eq!(one.status_detail, "Recording completed");
    assert_eq!(one.active_job_id, None);
    assert_eq!(one.last_recording_at.as_deref(), Some("t7"));
    assert_eq!(one.next_check_at.as_deref(), Some("t7"));
}

#[test]
fn fresh_identifiers_are_hyphenated_uuids() {
    let mut database = fresh_database();
    let a = database.insert_target("A", "https://e.com/a").unwrap();
    let b = database.insert_target("B", "https://e.com/b").unwrap();
    assert_eq!(a.id.len(), 36);
    assert_ne!(a.id, b.id);
    let chars: Vec<char> = a.id.chars().collect();
    for (i, c) in chars.iter().enumerate() {
        if [8, 13, 18, 23].contains(&i) {
            assert_eq!(*c, '-');
        } else {
            assert!(c.is_ascii_hexdigit() && !c.is_ascii_uppercase());
        }
    }
    assert_eq!(chars[14], '4');
    assert!(['8', '9', 'a', 'b'].contains(&chars[19]));
    assert!(a.created_at.contains('T'));
}

#[test]
fn loading_refuses_shared_keys() {
    let defaults = AppSettings::with_download_directory("d".to_owned());
    let mut database = fresh_database();
    let t = database.insert_target_at("1", "t", "One", "https://e.com/1").unwrap();
    let mut other = t.clone();
    other.id = "2".to_owned();
    assert!(Database::load(defaults.clone(), None, vec![t.clone(), other], vec![]).is_none());
    let loaded = Database::load(defaults, None, vec![t.clone()], vec![]).unwrap();
    assert_eq!(loaded.target("1"), Some(t));
}

#[test]
fn stored_rows_reload_into_the_same_database() {
    let mut database = fresh_database();
    database.insert_target_at("t1", "2026-07-13T00:00:00Z", "One", "https://e.com/1").unwrap();
    database.create_job_at("j1", "2026-07-13T21:00:00Z", "t1", None).unwrap();
    let mut settings = database.settings();
    settings.theme = "dark".to_owned();
    database.save_settings(&settings);
    let mut reloaded = Database::load(
        AppSettings::with_download_directory("elsewhere".to_owned()),
        database.stored_settings(),
        database.stored_targets(),
        database.stored_jobs(),
    )
    .unwrap();
    assert_eq!(reloaded.list_targets(), database.list_targets());
    assert_eq!(reloaded.list_jobs(10), database.list_jobs(10));
    assert_eq!(reloaded.settings().theme, "dark");
    assert_eq!(reloaded.stored_jobs(), database.stored_jobs());
}

#[test]
fn loading_refuses_recordings_of_unknown_streams() {
    let defaults = AppSettings::with_download_directory("d".to_owned());
    let mut database = fresh_database();
    let t = database.insert_target_at("1", "t", "One", "https://e.com/1").unwrap();
    database.create_job_at("j", "2026-07-13T21:00:00Z", "1", None).unwrap();
    let jobs = database.stored_jobs();
    assert!(Database::load(defaults.clone(), None, vec![], jobs.clone()).is_none());
    assert!(Database::load(defaults, None, vec![t], jobs).is_some());
}

#[test]
fn a_found_recording_is_the_listed_one() {
    let mut database = fresh_database();
    database.insert_target_at("t1", "t", "One", "https://e.com/1").unwrap();
    database.create_job_at("j1", "2026-07-13T21:00:00Z", "t1", None).unwrap();
    database.create_job_at("j2", "2026-07-14T21:00:00Z", "t1", Some("p")).unwrap();
    let found = database.job("j1").unwrap();
    let listed = database.list_jobs(10);
    assert_eq!(listed.iter().filter(|j| j.id == "j1").collect::<Vec<_>>(), vec![&found]);
    assert_eq!(found.target_name, "One");
}
