//! What the user interface asks of the library: checks of its input, the data it loads at start,
//! and the tray.
use vstd::prelude::*;

use crate::database::{
    has_job, has_target, insert_outcome, job_of, latest_listing, target_key, target_of, Database,
};
use crate::models::{
    AppSettings, BootstrapPayload, CreateTargetInput, EngineSummary, RecordingJob,
    UpdateTargetInput, WatchTarget,
};
use crate::sorting::sorted_by;
use crate::text::{same_text, trim, trimmed};
use crate::urls::{is_http_url, is_http_url_text};

verus! {

broadcast use {vstd::seq_lib::group_to_multiset_ensures, vstd::multiset::group_multiset_axioms};

/// The message given when a new stream has a blank name.
pub open spec fn blank_name_message() -> Seq<char> {
    "Give the stream a short, recognizable name."@
}

/// The message given when a new stream's URL is not an absolute HTTP(S) URL.
pub open spec fn new_url_message() -> Seq<char> {
    "Enter an absolute HTTP or HTTPS stream URL."@
}

/// Adds the stream the user entered, name and URL trimmed: refused when the name is blank or the
/// URL is not an absolute HTTP(S) URL, and when the URL is already on the watch list.
pub fn add_target(database: &mut Database, input: &CreateTargetInput) -> (r: Result<WatchTarget, String>)
    requires
        old(database).wf(),
    ensures
        final(database).wf(),
        trimmed(input.name@).len() == 0 ==> (r matches Err(e) && e@ == blank_name_message()
            && final(database).target_rows() == old(database).target_rows()),
        trimmed(input.name@).len() > 0 && !is_http_url_text(trimmed(input.url@)) ==> (r matches Err(
            e,
        ) && e@ == new_url_message() && final(database).target_rows() == old(
            database,
        ).target_rows()),
        trimmed(input.name@).len() > 0 && is_http_url_text(trimmed(input.url@)) ==> exists|
            id: Seq<char>,
            ts: Seq<char>,
        |
            #[trigger] insert_outcome(
                old(database).target_rows(),
                final(database).target_rows(),
                r,
                id,
                ts,
                trimmed(input.name@),
                trimmed(input.url@),
            ),
        final(database).job_rows() == old(database).job_rows(),
        final(database).saved_settings() == old(database).saved_settings(),
        final(database).default_settings() == old(database).default_settings(),
{
    let name = trim(input.name.as_str());
    let url = trim(input.url.as_str());
    if name.as_str().is_empty() {
        return Err("Give the stream a short, recognizable name.".to_owned());
    }
    if !is_http_url(url.as_str()) {
        return Err("Enter an absolute HTTP or HTTPS stream URL.".to_owned());
    }
    database.insert_target(name.as_str(), url.as_str())
}

/// The message given when a stream the user refers to is gone.
pub open spec fn missing_stream_message() -> Seq<char> {
    "That stream no longer exists."@
}

/// The message given when an edited stream has a blank name or a bad URL.
pub open spec fn bad_edit_message() -> Seq<char> {
    "Provide a name and an absolute HTTP or HTTPS stream URL."@
}

/// The stream the user edited, with the new name and URL trimmed and the new enabled flag;
/// refused when the stream is gone, the name is blank or the URL is not an absolute HTTP(S) URL.
pub fn prepare_target_update(database: &Database, input: &UpdateTargetInput) -> (r: Result<
    WatchTarget,
    String,
>)
    requires
        database.wf(),
    ensures
        !has_target(database.target_rows(), input.id@) ==> (r matches Err(e) && e@
            == missing_stream_message()),
        has_target(database.target_rows(), input.id@) && (trimmed(input.name@).len() == 0
            || !is_http_url_text(trimmed(input.url@))) ==> (r matches Err(e) && e@
            == bad_edit_message()),
        has_target(database.target_rows(), input.id@) && trimmed(input.name@).len() > 0
            && is_http_url_text(trimmed(input.url@)) ==> (r matches Ok(t) && t == WatchTarget {
            name: t.name,
            url: t.url,
            enabled: input.enabled,
            ..target_of(database.target_rows(), input.id@)
        } && t.name@ == trimmed(input.name@) && t.url@ == trimmed(input.url@)),
{
    let mut target = match database.target(input.id.as_str()) {
        Some(t) => t,
        None => return Err("That stream no longer exists.".to_owned()),
    };
    let name = trim(input.name.as_str());
    let url = trim(input.url.as_str());
    if name.as_str().is_empty() || !is_http_url(url.as_str()) {
        return Err("Provide a name and an absolute HTTP or HTTPS stream URL.".to_owned());
    }
    target.name = name;
    target.url = url;
    target.enabled = input.enabled;
    Ok(target)
}

/// The message given when the chosen language is not offered.
pub open spec fn unsupported_language_message() -> Seq<char> {
    "Choose a supported application language."@
}

/// The message given when no download directory is chosen.
pub open spec fn missing_directory_message() -> Seq<char> {
    "Choose a download directory."@
}

/// Whether settings may be saved: the language must be `en` or `pt-BR`, and the download
/// directory must not be blank.
pub fn validate_settings(settings: &AppSettings) -> (r: Result<(), String>)
    ensures
        !(settings.locale@ == "en"@ || settings.locale@ == "pt-BR"@) ==> (r matches Err(e) && e@
            == unsupported_language_message()),
        (settings.locale@ == "en"@ || settings.locale@ == "pt-BR"@) && trimmed(
            settings.download_directory@,
        ).len() == 0 ==> (r matches Err(e) && e@ == missing_directory_message()),
        (settings.locale@ == "en"@ || settings.locale@ == "pt-BR"@) && trimmed(
            settings.download_directory@,
        ).len() > 0 ==> r is Ok,
{
    if !(same_text(settings.locale.as_str(), "en") || same_text(settings.locale.as_str(), "pt-BR")) {
        return Err("Choose a supported application language.".to_owned());
    }
    if trim(settings.download_directory.as_str()).as_str().is_empty() {
        return Err("Choose a download directory.".to_owned());
    }
    Ok(())
}

/// The message given when a disabled stream is to be checked.
pub open spec fn disabled_stream_message() -> Seq<char> {
    "Enable the stream before checking it."@
}

/// The stream the user asks to check now: it must exist and be enabled.
pub fn target_to_check(database: &Database, id: &str) -> (r: Result<WatchTarget, String>)
    requires
        database.wf(),
    ensures
        !has_target(database.target_rows(), id@) ==> (r matches Err(e) && e@
            == missing_stream_message()),
        has_target(database.target_rows(), id@) && !target_of(database.target_rows(), id@).enabled
            ==> (r matches Err(e) && e@ == disabled_stream_message()),
        has_target(database.target_rows(), id@) && target_of(database.target_rows(), id@).enabled
            ==> r == Ok::<WatchTarget, String>(target_of(database.target_rows(), id@)),
{
    let target = match database.target(id) {
        Some(t) => t,
        None => return Err("That stream no longer exists.".to_owned()),
    };
    if !target.enabled {
        return Err("Enable the stream before checking it.".to_owned());
    }
    Ok(target)
}

/// The message given when a recording to show is gone.
pub open spec fn missing_recording_message() -> Seq<char> {
    "That recording no longer exists."@
}

/// The message given when a recording's file is not known yet.
pub open spec fn unlocated_recording_message() -> Seq<char> {
    "The recording file has not been located yet."@
}

/// The file of the recording `job_id` that the user asks to see.
pub fn recording_to_reveal(database: &Database, job_id: &str) -> (r: Result<String, String>)
    requires
        database.wf(),
    ensures
        if has_job(database.job_rows(), job_id@) && has_target(
            database.target_rows(),
            job_of(database.job_rows(), job_id@).target_id@,
        ) {
            match job_of(database.job_rows(), job_id@).output_path {
                Some(p) => r == Ok::<String, String>(p),
                None => r matches Err(e) && e@ == unlocated_recording_message(),
            }
        } else {
            r matches Err(e) && e@ == missing_recording_message()
        },
{
    let job = match database.job(job_id) {
        Some(j) => j,
        None => return Err("That recording no longer exists.".to_owned()),
    };
    match job.output_path {
        Some(p) => Ok(p),
        None => Err("The recording file has not been located yet.".to_owned()),
    }
}

/// Everything the user interface loads at start: the settings (saved now if they never were),
/// the watch list, the latest 60 recordings, the engine summary, and whether an earlier
/// configuration file can be imported.
pub fn bootstrap(database: &mut Database, engine: EngineSummary, legacy_config_available: bool) -> (r:
    BootstrapPayload)
    requires
        old(database).wf(),
    ensures
        final(database).wf(),
        r.settings == match old(database).saved_settings() {
            Some(s) => s,
            None => old(database).default_settings(),
        },
        final(database).saved_settings() == Some(r.settings),
        final(database).target_rows() == old(database).target_rows(),
        final(database).job_rows() == old(database).job_rows(),
        r.targets@.to_multiset() == old(database).target_rows().to_multiset(),
        sorted_by(r.targets@, |t: WatchTarget| target_key(t), false),
        latest_listing(r.jobs@, old(database).target_rows(), old(database).job_rows(), 60),
        r.disk_usage is None,
        r.engine == engine,
        r.legacy_config_available == legacy_config_available,
{
    let settings = database.settings();
    let targets = database.list_targets();
    let jobs = database.list_jobs(60);
    BootstrapPayload {
        settings,
        disk_usage: None,
        targets,
        jobs,
        engine,
        legacy_config_available,
    }
}

/// Whether pixel `(x, y)` of the tray icon lies in its disc.
pub open spec fn in_icon_disc(x: int, y: int) -> bool {
    (x - 16) * (x - 16) + (y - 16) * (y - 16) < 190
}

/// Byte `i` of the tray icon's RGBA pixels: blue and opaque inside the disc, clear outside.
pub open spec fn icon_byte(i: int) -> u8 {
    let p = i / 4;
    let c = i % 4;
    if in_icon_disc(p % 32, p / 32) {
        if c == 0 {
            31
        } else if c == 1 {
            122
        } else {
            255
        }
    } else {
        0
    }
}

/// The tray icon: 32 by 32 RGBA pixels, row by row, a blue disc on a clear ground.
pub fn tray_icon_pixels() -> (r: Vec<u8>)
    ensures
        r@.len() == 32 * 32 * 4,
        forall|i: int| 0 <= i < 32 * 32 * 4 ==> #[trigger] r@[i] == icon_byte(i),
{
    let mut out: Vec<u8> = Vec::new();
    let mut p: usize = 0;
    while p < 1024
        invariant
            p <= 1024,
            out@.len() == 4 * p,
            forall|i: int| 0 <= i < 4 * p ==> #[trigger] out@[i] == icon_byte(i),
        decreases 1024 - p,
    {
        let x = (p % 32) as i32 - 16;
        let y = (p / 32) as i32 - 16;
        assert(-16 <= x <= 15 && -16 <= y <= 15);
        assert(0 <= x * x <= 256 && 0 <= y * y <= 256) by (nonlinear_arith)
            requires
                -16 <= x <= 15,
                -16 <= y <= 15,
        ;
        let inside = x * x + y * y < 190;
        assert(inside == in_icon_disc((p % 32) as int, (p / 32) as int));
        let ghost before = out@;
        if inside {
            out.push(31);
            out.push(122);
            out.push(255);
            out.push(255);
        } else {
            out.push(0);
            out.push(0);
            out.push(0);
            out.push(0);
        }
        assert forall|i: int| 0 <= i < 4 * (p + 1) implies #[trigger] out@[i] == icon_byte(i) by {
            if i < 4 * p {
                assert(out@[i] == before[i]);
            } else {
                assert(i / 4 == p as int);
            }
        }
        p = p + 1;
    }
    out
}

/// What a request to close the main window does.
#[derive(Debug, PartialEq, Eq)]
pub enum CloseAction {
    /// The window closes and the application exits.
    Proceed,
    /// The window is hidden; the recorder keeps running in the tray.
    HideToTray,
}

/// A request to close the main window: it closes only once the user chose to exit from the
/// tray; otherwise the window is hidden and the recorder stays in the tray.
pub fn close_request_action(is_quitting: bool) -> (r: CloseAction)
    ensures
        r == if is_quitting {
            CloseAction::Proceed
        } else {
            CloseAction::HideToTray
        },
{
    if is_quitting {
        CloseAction::Proceed
    } else {
        CloseAction::HideToTray
    }
}

/// What a tray menu entry does.
#[derive(Debug, PartialEq, Eq)]
pub enum TrayAction {
    ShowDashboard,
    PauseAll,
    Resume,
    OpenDownloads,
    Exit,
    Nothing,
}

/// The action of the tray menu entry `id`.
pub fn tray_menu_action(id: &str) -> (r: TrayAction)
    ensures
        r == if id@ == "show"@ {
            TrayAction::ShowDashboard
        } else if id@ == "pause"@ {
            TrayAction::PauseAll
        } else if id@ == "resume"@ {
            TrayAction::Resume
        } else if id@ == "downloads"@ {
            TrayAction::OpenDownloads
        } else if id@ == "quit"@ {
            TrayAction::Exit
        } else {
            TrayAction::Nothing
        },
{
    if same_text(id, "show") {
        TrayAction::ShowDashboard
    } else if same_text(id, "pause") {
        TrayAction::PauseAll
    } else if same_text(id, "resume") {
        TrayAction::Resume
    } else if same_text(id, "downloads") {
        TrayAction::OpenDownloads
    } else if same_text(id, "quit") {
        TrayAction::Exit
    } else {
        TrayAction::Nothing
    }
}

} // verus!
