//! The records that the watch list, the history and the user interface exchange.
use vstd::prelude::*;

verus! {

/// The text of an optional string.
pub open spec fn text_opt(o: Option<String>) -> Option<Seq<char>> {
    match o {
        Some(s) => Some(s@),
        None => None,
    }
}

/// The text of an optional string slice.
pub open spec fn str_opt(o: Option<&str>) -> Option<Seq<char>> {
    match o {
        Some(s) => Some(s@),
        None => None,
    }
}

/// An owned copy of an optional string slice.
pub fn own_opt(o: Option<&str>) -> (r: Option<String>)
    ensures
        text_opt(r) == str_opt(o),
{
    match o {
        Some(s) => Some(s.to_owned()),
        None => None,
    }
}

/// An exact copy of an optional string.
pub fn copy_opt(o: &Option<String>) -> (r: Option<String>)
    ensures
        r == *o,
{
    match o {
        Some(s) => Some(s.clone()),
        None => None,
    }
}

/// User preferences.
#[derive(Debug, PartialEq, Eq)]
pub struct AppSettings {
    pub locale: String,
    pub theme: String,
    pub download_directory: String,
    pub probe_interval_seconds: u64,
    pub max_concurrent_probes: usize,
    pub max_concurrent_recordings: usize,
    pub launch_to_tray: bool,
    pub start_with_windows: bool,
    pub notifications_enabled: bool,
    pub retain_logs_days: u16,
    pub external_ytdlp_path: Option<String>,
}

impl Clone for AppSettings {
    fn clone(&self) -> (r: Self)
        ensures
            r == *self,
    {
        AppSettings {
            locale: self.locale.clone(),
            theme: self.theme.clone(),
            download_directory: self.download_directory.clone(),
            probe_interval_seconds: self.probe_interval_seconds,
            max_concurrent_probes: self.max_concurrent_probes,
            max_concurrent_recordings: self.max_concurrent_recordings,
            launch_to_tray: self.launch_to_tray,
            start_with_windows: self.start_with_windows,
            notifications_enabled: self.notifications_enabled,
            retain_logs_days: self.retain_logs_days,
            external_ytdlp_path: copy_opt(&self.external_ytdlp_path),
        }
    }
}

/// The language used when none was chosen.
pub fn default_locale() -> (r: String)
    ensures
        r@ == "en"@,
{
    "en".to_owned()
}

/// The settings of a fresh installation that records into `download_directory`.
pub open spec fn fresh_settings(s: AppSettings, download_directory: Seq<char>) -> bool {
    &&& s.locale@ == "en"@
    &&& s.theme@ == "system"@
    &&& s.download_directory@ == download_directory
    &&& s.probe_interval_seconds == 300
    &&& s.max_concurrent_probes == 6
    &&& s.max_concurrent_recordings == 3
    &&& s.launch_to_tray
    &&& !s.start_with_windows
    &&& s.notifications_enabled
    &&& s.retain_logs_days == 30
    &&& s.external_ytdlp_path is None
}

impl AppSettings {
    /// The settings of a fresh installation that records into `download_directory`.
    pub fn with_download_directory(download_directory: String) -> (r: Self)
        ensures
            fresh_settings(r, download_directory@),
    {
        AppSettings {
            locale: default_locale(),
            theme: "system".to_owned(),
            download_directory,
            probe_interval_seconds: 300,
            max_concurrent_probes: 6,
            max_concurrent_recordings: 3,
            launch_to_tray: true,
            start_with_windows: false,
            notifications_enabled: true,
            retain_logs_days: 30,
            external_ytdlp_path: None,
        }
    }
}

/// A stream on the watch list.
#[derive(Debug, PartialEq, Eq)]
pub struct WatchTarget {
    pub id: String,
    pub name: String,
    pub url: String,
    pub enabled: bool,
    pub state: String,
    pub status_detail: String,
    pub next_check_at: Option<String>,
    pub last_checked_at: Option<String>,
    pub last_recording_at: Option<String>,
    pub active_job_id: Option<String>,
    pub created_at: String,
}

impl Clone for WatchTarget {
    fn clone(&self) -> (r: Self)
        ensures
            r == *self,
    {
        WatchTarget {
            id: self.id.clone(),
            name: self.name.clone(),
            url: self.url.clone(),
            enabled: self.enabled,
            state: self.state.clone(),
            status_detail: self.status_detail.clone(),
            next_check_at: copy_opt(&self.next_check_at),
            last_checked_at: copy_opt(&self.last_checked_at),
            last_recording_at: copy_opt(&self.last_recording_at),
            active_job_id: copy_opt(&self.active_job_id),
            created_at: self.created_at.clone(),
        }
    }
}

/// A recording as the history stores it.
#[derive(Debug, PartialEq, Eq)]
pub struct JobRecord {
    pub id: String,
    pub target_id: String,
    pub state: String,
    pub started_at: String,
    pub finished_at: Option<String>,
    pub output_path: Option<String>,
    pub message: String,
    pub process_id: Option<u32>,
}

impl Clone for JobRecord {
    fn clone(&self) -> (r: Self)
        ensures
            r == *self,
    {
        JobRecord {
            id: self.id.clone(),
            target_id: self.target_id.clone(),
            state: self.state.clone(),
            started_at: self.started_at.clone(),
            finished_at: copy_opt(&self.finished_at),
            output_path: copy_opt(&self.output_path),
            message: self.message.clone(),
            process_id: self.process_id,
        }
    }
}

/// A recording together with the name of the stream it belongs to.
#[derive(Debug, PartialEq, Eq)]
pub struct RecordingJob {
    pub id: String,
    pub target_id: String,
    pub target_name: String,
    pub state: String,
    pub started_at: String,
    pub finished_at: Option<String>,
    pub output_path: Option<String>,
    pub message: String,
    pub process_id: Option<u32>,
}

impl Clone for RecordingJob {
    fn clone(&self) -> (r: Self)
        ensures
            r == *self,
    {
        RecordingJob {
            id: self.id.clone(),
            target_id: self.target_id.clone(),
            target_name: self.target_name.clone(),
            state: self.state.clone(),
            started_at: self.started_at.clone(),
            finished_at: copy_opt(&self.finished_at),
            output_path: copy_opt(&self.output_path),
            message: self.message.clone(),
            process_id: self.process_id,
        }
    }
}

/// What the dashboard shows of the recording engine.
#[derive(Debug, PartialEq, Eq)]
pub struct EngineSummary {
    pub running: bool,
    pub active_recordings: usize,
    pub enabled_targets: usize,
    pub next_global_check_at: Option<String>,
    pub sidecar_status: String,
}

/// Space on the volume that holds the downloads.
#[derive(Debug, PartialEq, Eq, Clone, Copy)]
pub struct DiskUsage {
    pub total_bytes: u64,
    pub available_bytes: u64,
}

/// Everything the user interface loads at start.
#[derive(Debug, PartialEq, Eq)]
pub struct BootstrapPayload {
    pub settings: AppSettings,
    pub disk_usage: Option<DiskUsage>,
    pub targets: Vec<WatchTarget>,
    pub jobs: Vec<RecordingJob>,
    pub engine: EngineSummary,
    pub legacy_config_available: bool,
}

/// A stream that the user asks to add.
#[derive(Debug, PartialEq, Eq)]
pub struct CreateTargetInput {
    pub name: String,
    pub url: String,
}

impl Clone for CreateTargetInput {
    fn clone(&self) -> (r: Self)
        ensures
            r == *self,
    {
        CreateTargetInput { name: self.name.clone(), url: self.url.clone() }
    }
}

/// The user's edit of a stream on the watch list.
#[derive(Debug, PartialEq, Eq)]
pub struct UpdateTargetInput {
    pub id: String,
    pub name: String,
    pub url: String,
    pub enabled: bool,
}

impl Clone for UpdateTargetInput {
    fn clone(&self) -> (r: Self)
        ensures
            r == *self,
    {
        UpdateTargetInput {
            id: self.id.clone(),
            name: self.name.clone(),
            url: self.url.clone(),
            enabled: self.enabled,
        }
    }
}

/// What an import of the earlier configuration file did.
#[derive(Debug, PartialEq, Eq)]
pub struct LegacyImportResult {
    pub imported: usize,
    pub skipped: usize,
    pub source_path: String,
    pub settings_imported: bool,
}

impl Clone for LegacyImportResult {
    fn clone(&self) -> (r: Self)
        ensures
            r == *self,
    {
        LegacyImportResult {
            imported: self.imported,
            skipped: self.skipped,
            source_path: self.source_path.clone(),
            settings_imported: self.settings_imported,
        }
    }
}

} // verus!
