use live_downloader::paths::{
    bundled_sidecar_directory_from, is_recording_file, recording_output_template,
    recording_timestamp_format, same_path_text,
};

#[test]
fn resolves_the_same_sidecar_directory_as_tauri_shell() {
    assert_eq!(
        bundled_sidecar_directory_from(r"C:\app\live-downloader.exe"),
        Some(r"C:\app".into())
    );
    assert_eq!(
        bundled_sidecar_directory_from(r"C:\app\deps\live_downloader_tests.exe"),
        Some(r"C:\app".into())
    );
}

#[test]
fn uses_channel_and_windows_safe_timestamp_for_output_name() {
    assert_eq!(
        recording_output_template(r"C:\Recordings", "13-07-2026 22-42-15"),
        r"C:\Recordings\%(channel,uploader)s - 13-07-2026 22-42-15.%(ext)s".to_owned()
    );
    assert_eq!(recording_timestamp_format("en"), "%m-%d-%Y %H-%M-%S");
    assert_eq!(recording_timestamp_format("pt-BR"), "%d-%m-%Y %H-%M-%S");
}

#[test]
fn joins_without_doubling_separators() {
    assert_eq!(recording_output_template(r"C:\", "t"), r"C:\%(channel,uploader)s - t.%(ext)s");
    assert_eq!(recording_output_template("D:", "t"), "D:%(channel,uploader)s - t.%(ext)s");
    assert_eq!(recording_output_template("", "t"), "%(channel,uploader)s - t.%(ext)s");
}

#[test]
fn sidecar_directory_edge_cases() {
    assert_eq!(bundled_sidecar_directory_from(r"C:\"), None);
    assert_eq!(bundled_sidecar_directory_from(r"C:\app.exe"), Some(r"C:\".into()));
    assert_eq!(bundled_sidecar_directory_from("app.exe"), Some("".into()));
    assert_eq!(bundled_sidecar_directory_from(r"deps\x.exe"), Some("".into()));
    assert_eq!(bundled_sidecar_directory_from(r"C:\app\\tool.exe\\"), Some(r"C:\app".into()));
}

#[test]
fn recognizes_video_files_by_extension() {
    assert!(is_recording_file(r"C:\Recordings\a.mp4"));
    assert!(is_recording_file(r"C:\Recordings\a.b.MKV"));
    assert!(is_recording_file("clip.WebM"));
    assert!(is_recording_file("x.ts"));
    assert!(!is_recording_file(r"C:\Recordings\a.part"));
    assert!(!is_recording_file(r"C:\Recordings\.mp4"));
    assert!(!is_recording_file(r"C:\Recordings\mp4"));
    assert!(!is_recording_file(r"C:\Recordings\"));
    assert!(!is_recording_file(".."));
}

#[test]
fn dot_components_are_dropped_as_paths_read_them() {
    assert!(is_recording_file("clip.mp4/."));
    assert!(is_recording_file(r"C:\Rec\.\a.mp4\"));
    assert!(!is_recording_file("."));
    assert!(!is_recording_file(r"C:\."));
    assert_eq!(bundled_sidecar_directory_from("foo/."), Some("".into()));
    assert_eq!(bundled_sidecar_directory_from(r"C:\app\.\x.exe"), Some(r"C:\app".into()));
    assert_eq!(bundled_sidecar_directory_from(r"C:\app\deps\.\t.exe"), Some(r"C:\app".into()));
    assert_eq!(bundled_sidecar_directory_from("./x.exe"), Some(".".into()));
    assert_eq!(bundled_sidecar_directory_from(r"\."), None);
}

#[test]
fn paths_compare_by_components() {
    assert!(same_path_text(r"C:/Rec/a.mp4", r"c:\Rec\.\a.mp4\"));
    assert!(same_path_text("a//b", r"a\b"));
    assert!(same_path_text("./a", "./a/"));
    assert!(!same_path_text("./a", "a"));
    assert!(!same_path_text(r"C:\a", "C:a"));
    assert!(!same_path_text(r"C:\a", r"D:\a"));
    assert!(!same_path_text(r"C:\Rec\A.mp4", r"C:\Rec\a.mp4"));
    assert!(!same_path_text("a/../b", "b"));
}
