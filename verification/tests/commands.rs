use live_downloader::commands::{
    add_target, bootstrap, close_request_action, prepare_target_update, recording_to_reveal, target_to_check,
    tray_icon_pixels, tray_menu_action, validate_settings, CloseAction, TrayAction,
};
use live_downloader::database::Database;
use live_downloader::models::{
    AppSettings, CreateTargetInput, EngineSummary, UpdateTargetInput,
};

fn fresh_database() -> Database {
    Database::new(AppSettings::with_download_directory("C:\\Downloads".to_owned()))
}

fn summary() -> EngineSummary {
    EngineSummary {
        running: false,
        active_recordings: 0,
        enabled_targets: 0,
        next_global_check_at: None,
        sidecar_status: "Bundled yt-dlp".to_owned(),
    }
}

#[test]
fn add_target_trims_and_refuses_bad_input() {
    let mut database = fresh_database();
    let blank = CreateTargetInput { name: "   ".to_owned(), url: "https://x.tv/a".to_owned() };
    assert_eq!(
        add_target(&mut database, &blank),
        Err("Give the stream a short, recognizable name.".to_owned())
    );
    let bad_url = CreateTargetInput { name: "A".to_owned(), url: "ftp://x.tv/a".to_owned() };
    assert_eq!(
        add_target(&mut database, &bad_url),
        Err("Enter an absolute HTTP or HTTPS stream URL.".to_owned())
    );
    let good = CreateTargetInput {
        name: "  Example ".to_owned(),
        url: " https://www.twitch.tv/example\n".to_owned(),
    };
    let added = add_target(&mut database, &good).unwrap();
    assert_eq!(added.name, "Example");
    assert_eq!(added.url, "https://www.twitch.tv/example");
    assert!(added.enabled);
    assert_eq!(added.state, "Watching");
    assert_eq!(
        add_target(&mut database, &good),
        Err("That stream URL is already in the watch list.".to_owned())
    );
    assert_eq!(database.list_targets().len(), 1);
}

#[test]
fn update_requires_an_existing_stream_and_valid_fields() {
    let mut database = fresh_database();
    database.insert_target_at("t1", "2026-07-13T00:00:00Z", "Chan", "https://x.tv/chan").unwrap();
    let missing = UpdateTargetInput {
        id: "nope".to_owned(),
        name: "A".to_owned(),
        url: "https://x.tv/a".to_owned(),
        enabled: true,
    };
    assert_eq!(
        prepare_target_update(&database, &missing),
        Err("That stream no longer exists.".to_owned())
    );
    let blank = UpdateTargetInput {
        id: "t1".to_owned(),
        name: " ".to_owned(),
        url: "https://x.tv/a".to_owned(),
        enabled: true,
    };
    assert_eq!(
        prepare_target_update(&database, &blank),
        Err("Provide a name and an absolute HTTP or HTTPS stream URL.".to_owned())
    );
    let edit = UpdateTargetInput {
        id: "t1".to_owned(),
        name: " New ".to_owned(),
        url: " http://x.tv/new ".to_owned(),
        enabled: false,
    };
    let updated = prepare_target_update(&database, &edit).unwrap();
    assert_eq!(updated.id, "t1");
    assert_eq!(updated.name, "New");
    assert_eq!(updated.url, "http://x.tv/new");
    assert!(!updated.enabled);
    assert_eq!(updated.created_at, "2026-07-13T00:00:00Z");
}

#[test]
fn settings_need_a_known_language_and_a_directory() {
    let mut settings = AppSettings::with_download_directory("C:\\Downloads".to_owned());
    assert_eq!(validate_settings(&settings), Ok(()));
    settings.locale = "pt-BR".to_owned();
    assert_eq!(validate_settings(&settings), Ok(()));
    settings.locale = "fr".to_owned();
    assert_eq!(
        validate_settings(&settings),
        Err("Choose a supported application language.".to_owned())
    );
    settings.locale = "en".to_owned();
    settings.download_directory = "  ".to_owned();
    assert_eq!(validate_settings(&settings), Err("Choose a download directory.".to_owned()));
}

#[test]
fn only_enabled_streams_are_checked() {
    let mut database = fresh_database();
    database.insert_target_at("t1", "2026-07-13T00:00:00Z", "Chan", "https://x.tv/chan").unwrap();
    assert_eq!(target_to_check(&database, "t1").unwrap().id, "t1");
    assert_eq!(
        target_to_check(&database, "t2"),
        Err("That stream no longer exists.".to_owned())
    );
    let mut target = database.target("t1").unwrap();
    target.enabled = false;
    database.update_target(&target).unwrap();
    assert_eq!(
        target_to_check(&database, "t1"),
        Err("Enable the stream before checking it.".to_owned())
    );
}

#[test]
fn reveals_only_located_recordings() {
    let mut database = fresh_database();
    database.insert_target_at("t1", "2026-07-13T00:00:00Z", "Chan", "https://x.tv/chan").unwrap();
    database.create_job_at("j1", "2026-07-13T21:00:00Z", "t1", None).unwrap();
    database.create_job_at("j2", "2026-07-13T22:00:00Z", "t1", Some("C:\\r\\a.mp4")).unwrap();
    assert_eq!(
        recording_to_reveal(&database, "j1"),
        Err("The recording file has not been located yet.".to_owned())
    );
    assert_eq!(recording_to_reveal(&database, "j2"), Ok("C:\\r\\a.mp4".to_owned()));
    assert_eq!(
        recording_to_reveal(&database, "j3"),
        Err("That recording no longer exists.".to_owned())
    );
}

#[test]
fn bootstrap_saves_the_defaults_and_lists_everything() {
    let mut database = fresh_database();
    database.insert_target_at("t1", "2026-07-13T00:00:00Z", "Chan", "https://x.tv/chan").unwrap();
    database.create_job_at("j1", "2026-07-13T21:00:00Z", "t1", None).unwrap();
    let payload = bootstrap(&mut database, summary(), true);
    assert_eq!(payload.settings.download_directory, "C:\\Downloads");
    assert_eq!(payload.settings.locale, "en");
    assert_eq!(payload.targets.len(), 1);
    assert_eq!(payload.jobs.len(), 1);
    assert_eq!(payload.jobs[0].target_name, "Chan");
    assert_eq!(payload.disk_usage, None);
    assert!(payload.legacy_config_available);
    assert_eq!(payload.engine, summary());
}

#[test]
fn tray_icon_is_a_blue_disc() {
    let pixels = tray_icon_pixels();
    assert_eq!(pixels.len(), 32 * 32 * 4);
    let centre = (16 * 32 + 16) * 4;
    assert_eq!(&pixels[centre..centre + 4], &[31, 122, 255, 255]);
    assert_eq!(&pixels[0..4], &[0, 0, 0, 0]);
    // (2, 16): 14 * 14 = 196 is outside the disc, (3, 16): 169 is inside.
    let edge = (16 * 32 + 2) * 4;
    assert_eq!(&pixels[edge..edge + 4], &[0, 0, 0, 0]);
    let inside = (16 * 32 + 3) * 4;
    assert_eq!(&pixels[inside..inside + 4], &[31, 122, 255, 255]);
}

#[test]
fn tray_menu_entries_map_to_actions() {
    assert_eq!(tray_menu_action("show"), TrayAction::ShowDashboard);
    assert_eq!(tray_menu_action("pause"), TrayAction::PauseAll);
    assert_eq!(tray_menu_action("resume"), TrayAction::Resume);
    assert_eq!(tray_menu_action("downloads"), TrayAction::OpenDownloads);
    assert_eq!(tray_menu_action("quit"), TrayAction::Exit);
    assert_eq!(tray_menu_action("other"), TrayAction::Nothing);
}

#[test]
fn closing_hides_the_window_unless_exiting() {
    assert_eq!(close_request_action(false), CloseAction::HideToTray);
    assert_eq!(close_request_action(true), CloseAction::Proceed);
}
