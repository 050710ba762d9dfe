use live_downloader::database::Database;
use live_downloader::legacy::{import_legacy_config, import_streams_at, LegacyConfig};
use live_downloader::models::AppSettings;
use live_downloader::urls::is_http_url;

#[test]
fn accepts_absolute_http_urls_only() {
    assert!(is_http_url("https://www.twitch.tv/example"));
    assert!(is_http_url("http://localhost:8080/live"));
    assert!(!is_http_url("ftp://example.com/archive"));
    assert!(!is_http_url("https://"));
    assert!(!is_http_url("not a URL"));
}

#[test]
fn imports_valid_streams_and_settings() {
    let mut database = Database::new(AppSettings::with_download_directory("d".to_owned()));
    database
        .insert_target_at("x", "t", "Existing", "https://www.youtube.com/@chan/live")
        .unwrap();
    let legacy = LegacyConfig {
        streams: vec![
            "  https://www.twitch.tv/example  ".to_owned(),
            "ftp://example.com/archive".to_owned(),
            "https://www.youtube.com/@chan/live".to_owned(),
        ],
        yt_dlp_path: Some("C:\\tools\\yt-dlp.exe".to_owned()),
        check_interval_seconds: Some(20),
        download_directory: Some("   ".to_owned()),
    };
    let result = import_legacy_config(&mut database, &legacy, "C:\\old\\config.json");
    assert_eq!(result.imported, 1);
    assert_eq!(result.skipped, 2);
    assert_eq!(result.source_path, "C:\\old\\config.json");
    assert!(result.settings_imported);
    let names: Vec<String> = database.list_targets().into_iter().map(|t| t.name).collect();
    assert_eq!(names, vec!["Existing", "www.twitch.tv"]);
    let settings = database.settings();
    assert_eq!(settings.external_ytdlp_path.as_deref(), Some("C:\\tools\\yt-dlp.exe"));
    assert_eq!(settings.probe_interval_seconds, 300);
    assert_eq!(settings.download_directory, "d");
}

#[test]
fn import_without_usable_settings_leaves_them() {
    let mut database = Database::new(AppSettings::with_download_directory("d".to_owned()));
    let legacy = LegacyConfig {
        streams: vec![],
        yt_dlp_path: None,
        check_interval_seconds: Some(45),
        download_directory: Some("E:\\videos".to_owned()),
    };
    let result = import_legacy_config(&mut database, &legacy, "cfg");
    assert_eq!(result.imported, 0);
    assert_eq!(result.skipped, 0);
    assert!(result.settings_imported);
    let settings = database.settings();
    assert_eq!(settings.probe_interval_seconds, 45);
    assert_eq!(settings.download_directory, "E:\\videos");
}

#[test]
fn streams_are_added_in_order_and_taken_ones_skipped() {
    let mut database = Database::new(AppSettings::with_download_directory("d".to_owned()));
    database.insert_target_at("a", "t0", "A", "https://a.tv/x").unwrap();
    let streams = vec![
        "https://b.tv/one".to_owned(),
        "https://c.tv/two".to_owned(),
        "https://b.tv/one".to_owned(),
        "https://d.tv/three".to_owned(),
        "https://a.tv/x".to_owned(),
    ];
    let ids = vec![
        "n1".to_owned(),
        "a".to_owned(),
        "n3".to_owned(),
        "n4".to_owned(),
        "n5".to_owned(),
    ];
    let times = vec![
        "t1".to_owned(),
        "t2".to_owned(),
        "t3".to_owned(),
        "t4".to_owned(),
        "t5".to_owned(),
    ];
    assert_eq!(import_streams_at(&mut database, &streams, &ids, &times), (2, 3));
    let added = database.target("n1").unwrap();
    assert_eq!(added.name, "b.tv");
    assert_eq!(added.url, "https://b.tv/one");
    assert_eq!(added.created_at, "t1");
    assert_eq!(database.target("n4").unwrap().name, "d.tv");
    assert!(database.target("n3").is_none());
    assert!(database.target("n5").is_none());
    assert_eq!(database.target("a").unwrap().name, "A");
    assert_eq!(database.list_targets().len(), 3);
}
