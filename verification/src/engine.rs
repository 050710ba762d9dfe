//! The recording engine's decisions: what a probe leads to, how a recording is launched and how
//! its end is reported.
use vstd::prelude::*;

use crate::models::{text_opt, AppSettings};
use crate::text::{chars_of, decimal, decimal_string, starts_with, string_from_range, trim, trimmed};
use crate::urls::{is_http_url, is_http_url_text};

verus! {

/// The state and detail shown for a stream.
#[derive(Debug, PartialEq, Eq)]
pub struct TargetStatus {
    pub state: String,
    pub detail: String,
}

/// `s` shows `state` with `detail`.
pub open spec fn shows(s: TargetStatus, state: Seq<char>, detail: Seq<char>) -> bool {
    s.state@ == state && s.detail@ == detail
}

/// The status shown while a stream is being checked.
pub fn checking_status() -> (r: TargetStatus)
    ensures
        shows(r, "Checking"@, "Checking whether the stream is live"@),
{
    TargetStatus {
        state: "Checking".to_owned(),
        detail: "Checking whether the stream is live".to_owned(),
    }
}

/// What a check of whether a stream is live gave.
#[derive(Debug, PartialEq, Eq)]
pub enum ProbeOutcome {
    /// The stream is live.
    Live,
    /// The stream is not live.
    Offline,
    /// The check could not be made; the message says why.
    Failed(String),
    /// The check did not finish in time.
    TimedOut,
}

/// What follows a check.
#[derive(Debug, PartialEq, Eq)]
pub enum ProbeFollowUp {
    /// Start recording the stream.
    StartRecording,
    /// Show this status until the next check.
    Show(TargetStatus),
}

/// What follows a check: a live stream is recorded; otherwise the stream shows why not.
pub fn probe_follow_up(outcome: ProbeOutcome) -> (r: ProbeFollowUp)
    ensures
        match outcome {
            ProbeOutcome::Live => r is StartRecording,
            ProbeOutcome::Offline => r matches ProbeFollowUp::Show(s) && shows(
                s,
                "Watching"@,
                "Waiting for the stream to go live"@,
            ),
            ProbeOutcome::Failed(e) => r matches ProbeFollowUp::Show(s) && shows(
                s,
                "Needs attention"@,
                e@,
            ),
            ProbeOutcome::TimedOut => r matches ProbeFollowUp::Show(s) && shows(
                s,
                "Retrying"@,
                "Live check timed out; the next scheduled check will retry"@,
            ),
        },
{
    match outcome {
        ProbeOutcome::Live => ProbeFollowUp::StartRecording,
        ProbeOutcome::Offline => ProbeFollowUp::Show(
            TargetStatus {
                state: "Watching".to_owned(),
                detail: "Waiting for the stream to go live".to_owned(),
            },
        ),
        ProbeOutcome::Failed(e) => ProbeFollowUp::Show(
            TargetStatus { state: "Needs attention".to_owned(), detail: e },
        ),
        ProbeOutcome::TimedOut => ProbeFollowUp::Show(
            TargetStatus {
                state: "Retrying".to_owned(),
                detail: "Live check timed out; the next scheduled check will retry".to_owned(),
            },
        ),
    }
}

/// The status shown when a recording could not be started.
pub fn recording_failed_status(error: String) -> (r: TargetStatus)
    ensures
        shows(r, "Needs attention"@, error@),
{
    TargetStatus { state: "Needs attention".to_owned(), detail: error }
}

/// The status shown while a stream waits for a free recording slot.
pub fn queued_status() -> (r: TargetStatus)
    ensures
        shows(r, "Queued"@, "Waiting for a recording slot"@),
{
    TargetStatus {
        state: "Queued".to_owned(),
        detail: "Waiting for a recording slot".to_owned(),
    }
}

/// The status shown while a stream is being recorded.
pub fn recording_status() -> (r: TargetStatus)
    ensures
        shows(r, "Recording"@, "Recording in the background"@),
{
    TargetStatus {
        state: "Recording".to_owned(),
        detail: "Recording in the background".to_owned(),
    }
}

/// How long a queued stream waits before it is checked again, in seconds.
pub fn queued_retry_seconds() -> (r: u64)
    ensures
        r == 30,
{
    30
}

/// Whether another recording may start while `active` run: at most the configured number, and
/// always at least one.
pub fn recording_slot_available(active: usize, max_concurrent_recordings: usize) -> (r: bool)
    ensures
        r == (active < if max_concurrent_recordings < 1 {
            1
        } else {
            max_concurrent_recordings
        }),
{
    let limit = if max_concurrent_recordings < 1 {
        1
    } else {
        max_concurrent_recordings
    };
    active < limit
}

/// The time between checks of a stream, in seconds: the configured interval, at least 30.
pub fn probe_interval_seconds(settings: &AppSettings) -> (r: u64)
    ensures
        r == if settings.probe_interval_seconds < 30 {
            30
        } else {
            settings.probe_interval_seconds
        },
{
    if settings.probe_interval_seconds < 30 {
        30
    } else {
        settings.probe_interval_seconds
    }
}

/// One turn of the scheduler loop.
#[derive(Debug, PartialEq, Eq)]
pub enum SchedulerStep {
    /// Wait this many seconds and look again.
    Wait(u64),
    /// Check every enabled stream, then wait this many seconds.
    CheckAll(u64),
}

/// One turn of the scheduler: paused, it looks again after a second; without readable settings,
/// after five; otherwise it checks every enabled stream and waits one probe interval.
pub fn scheduler_step(running: bool, settings: Option<&AppSettings>) -> (r: SchedulerStep)
    ensures
        !running ==> r == SchedulerStep::Wait(1),
        running && settings is None ==> r == SchedulerStep::Wait(5),
        running && settings is Some ==> r == SchedulerStep::CheckAll(
            if settings.unwrap().probe_interval_seconds < 30 {
                30
            } else {
                settings.unwrap().probe_interval_seconds
            },
        ),
{
    if !running {
        return SchedulerStep::Wait(1);
    }
    match settings {
        Some(s) => SchedulerStep::CheckAll(probe_interval_seconds(s)),
        None => SchedulerStep::Wait(5),
    }
}

/// Where yt-dlp comes from.
#[derive(Debug, PartialEq, Eq)]
pub enum CommandSource {
    /// The copy installed with the application.
    Bundled,
    /// The executable at this path, which the user configured.
    External(String),
}

/// The configured yt-dlp path, trimmed, unless it is blank.
pub fn external_ytdlp_path(settings: &AppSettings) -> (r: Option<String>)
    ensures
        text_opt(r) == match settings.external_ytdlp_path {
            Some(q) => if trimmed(q@).len() > 0 {
                Some(trimmed(q@))
            } else {
                None
            },
            None => None,
        },
{
    match &settings.external_ytdlp_path {
        Some(p) => {
            let t = trim(p.as_str());
            if t.as_str().is_empty() {
                None
            } else {
                Some(t)
            }
        },
        None => None,
    }
}

/// The message given when the configured yt-dlp is missing.
pub open spec fn missing_executable_message(path: Seq<char>) -> Seq<char> {
    "The configured yt-dlp executable was not found at "@ + path
}

/// Which yt-dlp to run, given the configured path (see `external_ytdlp_path`) and whether a file
/// exists there: the bundled one when none is configured, the configured one when it exists.
pub fn command_source(configured: Option<String>, exists: bool) -> (r: Result<CommandSource, String>)
    ensures
        match configured {
            None => r == Ok::<CommandSource, String>(CommandSource::Bundled),
            Some(p) => if exists {
                r == Ok::<CommandSource, String>(CommandSource::External(p))
            } else {
                r matches Err(e) && e@ == missing_executable_message(p@)
            },
        },
{
    match configured {
        None => Ok(CommandSource::Bundled),
        Some(p) => {
            if exists {
                Ok(CommandSource::External(p))
            } else {
                let mut e = "The configured yt-dlp executable was not found at ".to_owned();
                e.append(p.as_str());
                Err(e)
            }
        },
    }
}

/// The dashboard's description of where yt-dlp comes from, given the configured path as saved,
/// whether a file exists there, and whether the bundled FFmpeg is present.
pub fn sidecar_status(external: &Option<String>, external_exists: bool, managed_ffmpeg: bool) -> (r:
    String)
    ensures
        r@ == match external {
            Some(_) => if external_exists {
                "External yt-dlp ready"@
            } else {
                "External yt-dlp path is unavailable"@
            },
            None => if managed_ffmpeg {
                "Managed yt-dlp + FFmpeg sidecars"@
            } else {
                "Managed yt-dlp sidecar"@
            },
        },
{
    match external {
        Some(_) => if external_exists {
            "External yt-dlp ready".to_owned()
        } else {
            "External yt-dlp path is unavailable".to_owned()
        },
        None => if managed_ffmpeg {
            "Managed yt-dlp + FFmpeg sidecars".to_owned()
        } else {
            "Managed yt-dlp sidecar".to_owned()
        },
    }
}

/// The text of each argument, in order.
pub open spec fn arg_texts(args: Seq<String>) -> Seq<Seq<char>> {
    args.map_values(|a: String| a@)
}

/// The arguments that point yt-dlp at the bundled FFmpeg, when there is one.
pub open spec fn ffmpeg_args(directory: Option<Seq<char>>) -> Seq<Seq<char>> {
    match directory {
        Some(d) => seq!["--ffmpeg-location"@, d],
        None => Seq::empty(),
    }
}

/// Adds `--ffmpeg-location <directory>` when the bundled FFmpeg directory is known.
pub fn append_managed_ffmpeg_location(args: &mut Vec<String>, directory: Option<String>)
    ensures
        arg_texts(final(args)@) == arg_texts(old(args)@) + ffmpeg_args(text_opt(directory)),
{
    let ghost before = args@;
    match directory {
        Some(d) => {
            args.push("--ffmpeg-location".to_owned());
            args.push(d);
            assert(arg_texts(args@) =~= arg_texts(before) + ffmpeg_args(text_opt(directory)));
        },
        None => {
            assert(arg_texts(args@) =~= arg_texts(before) + ffmpeg_args(text_opt(directory)));
        },
    }
}

/// The message given when a stream URL is not an absolute HTTP(S) URL.
pub open spec fn bad_url_message() -> Seq<char> {
    "The stream URL must be an absolute HTTP or HTTPS URL."@
}

/// The yt-dlp arguments of a check whether `url` is live: simulate quietly.
pub fn probe_arguments(url: &str, ffmpeg_directory: Option<String>) -> (r: Result<Vec<String>, String>)
    ensures
        !is_http_url_text(url@) ==> (r matches Err(e) && e@ == bad_url_message()),
        is_http_url_text(url@) ==> (r matches Ok(args) && arg_texts(args@) == seq![
            "--no-cache"@,
            "--simulate"@,
            "--quiet"@,
            "--no-warnings"@,
        ] + ffmpeg_args(text_opt(ffmpeg_directory)) + seq![url@]),
{
    if !is_http_url(url) {
        return Err("The stream URL must be an absolute HTTP or HTTPS URL.".to_owned());
    }
    let mut args: Vec<String> = Vec::new();
    args.push("--no-cache".to_owned());
    args.push("--simulate".to_owned());
    args.push("--quiet".to_owned());
    args.push("--no-warnings".to_owned());
    let ghost base = arg_texts(args@);
    assert(base =~= seq!["--no-cache"@, "--simulate"@, "--quiet"@, "--no-warnings"@]);
    append_managed_ffmpeg_location(&mut args, ffmpeg_directory);
    let ghost mid = args@;
    args.push(url.to_owned());
    assert(arg_texts(args@) =~= arg_texts(mid).push(url@));
    Ok(args)
}

/// The yt-dlp arguments of a recording of `url` into `output_template`, whose final path yt-dlp
/// writes to `receipt` once the file is in place.
pub fn recording_arguments(
    output_template: &str,
    receipt: &str,
    ffmpeg_directory: Option<String>,
    url: &str,
) -> (r: Vec<String>)
    ensures
        arg_texts(r@) == seq![
            "--no-cache"@,
            "--newline"@,
            "--continue"@,
            "--output"@,
            output_template@,
            "--print-to-file"@,
            "after_move:filepath"@,
            receipt@,
        ] + ffmpeg_args(text_opt(ffmpeg_directory)) + seq![url@],
{
    let mut args: Vec<String> = Vec::new();
    args.push("--no-cache".to_owned());
    args.push("--newline".to_owned());
    args.push("--continue".to_owned());
    args.push("--output".to_owned());
    args.push(output_template.to_owned());
    args.push("--print-to-file".to_owned());
    args.push("after_move:filepath".to_owned());
    args.push(receipt.to_owned());
    let ghost base = arg_texts(args@);
    assert(base =~= seq![
        "--no-cache"@,
        "--newline"@,
        "--continue"@,
        "--output"@,
        output_template@,
        "--print-to-file"@,
        "after_move:filepath"@,
        receipt@,
    ]);
    append_managed_ffmpeg_location(&mut args, ffmpeg_directory);
    let ghost mid = args@;
    args.push(url.to_owned());
    assert(arg_texts(args@) =~= arg_texts(mid).push(url@));
    args
}

/// The name of the file in which yt-dlp leaves the final path of the recording `job_id`.
pub fn receipt_file_name(job_id: &str) -> (r: String)
    ensures
        r@ == "live-downloader-"@ + job_id@ + ".path"@,
{
    let mut s = "live-downloader-".to_owned();
    s.append(job_id);
    s.append(".path");
    s
}

/// The outcome of a recording that the user stopped.
pub fn cancelled_outcome() -> (r: String)
    ensures
        r@ == "Cancelled by the user"@,
{
    "Cancelled by the user".to_owned()
}

/// `Debug` of an optional exit code: `Some(<code>)` or `None`.
pub open spec fn code_debug(code: Option<i32>) -> Seq<char> {
    match code {
        Some(c) => "Some("@ + decimal(c as int) + ")"@,
        None => "None"@,
    }
}

/// The outcome of a configured yt-dlp that exited: success means the recording completed.
pub fn exit_status_outcome(success: bool, code: Option<i32>) -> (r: String)
    ensures
        r@ == if success {
            "Recording completed"@
        } else {
            "yt-dlp exited with code "@ + code_debug(code)
        },
{
    if success {
        return "Recording completed".to_owned();
    }
    let mut s = "yt-dlp exited with code ".to_owned();
    match code {
        Some(c) => {
            s.append("Some(");
            let d = decimal_string(c as i64);
            s.append(d.as_str());
            s.append(")");
        },
        None => {
            s.append("None");
        },
    }
    s
}

/// The outcome of a configured yt-dlp that could not be waited for.
pub fn monitor_error_outcome(error: &str) -> (r: String)
    ensures
        r@ == "yt-dlp could not be monitored: "@ + error@,
{
    let mut s = "yt-dlp could not be monitored: ".to_owned();
    s.append(error);
    s
}

/// An event of the bundled yt-dlp process.
#[derive(Debug, PartialEq, Eq)]
pub enum SidecarEvent {
    /// The process ended, with this exit code if it had one.
    Terminated(Option<i32>),
    /// The process reported an error.
    Error(String),
    /// Output or anything else.
    Other,
}

/// What an event of the bundled yt-dlp says of the recording's end, if it ends it.
pub fn sidecar_event_outcome(event: SidecarEvent) -> (r: Option<String>)
    ensures
        match event {
            SidecarEvent::Terminated(Some(c)) => r matches Some(s) && s@ == if c == 0 {
                "Recording completed"@
            } else {
                "yt-dlp exited with code "@ + decimal(c as int)
            },
            SidecarEvent::Terminated(None) => r matches Some(s) && s@ == "yt-dlp process ended"@,
            SidecarEvent::Error(e) => r matches Some(s) && s@ == "yt-dlp error: "@ + e@,
            SidecarEvent::Other => r is None,
        },
{
    match event {
        SidecarEvent::Terminated(Some(c)) => {
            if c == 0 {
                Some("Recording completed".to_owned())
            } else {
                let mut s = "yt-dlp exited with code ".to_owned();
                let d = decimal_string(c as i64);
                s.append(d.as_str());
                Some(s)
            }
        },
        SidecarEvent::Terminated(None) => Some("yt-dlp process ended".to_owned()),
        SidecarEvent::Error(e) => {
            let mut s = "yt-dlp error: ".to_owned();
            s.append(e.as_str());
            Some(s)
        },
        SidecarEvent::Other => None,
    }
}

/// The outcome of a bundled yt-dlp whose events stopped before it ended.
pub fn stream_ended_outcome() -> (r: String)
    ensures
        r@ == "yt-dlp output stream ended unexpectedly"@,
{
    "yt-dlp output stream ended unexpectedly".to_owned()
}

/// The state a recording ends in, given its outcome: `Completed` after a completed recording,
/// `Cancelled` after a cancellation, `Failed` otherwise.
pub open spec fn outcome_state(outcome: Seq<char>) -> Seq<char> {
    if "Recording completed"@.is_prefix_of(outcome) {
        "Completed"@
    } else if "Cancelled"@.is_prefix_of(outcome) {
        "Cancelled"@
    } else {
        "Failed"@
    }
}

/// The state a recording ends in, given its outcome (see `outcome_state`).
pub fn job_state_for_outcome(outcome: &str) -> (r: &'static str)
    ensures
        r@ == outcome_state(outcome@),
{
    if starts_with(outcome, "Recording completed") {
        "Completed"
    } else if starts_with(outcome, "Cancelled") {
        "Cancelled"
    } else {
        "Failed"
    }
}

/// A recording ends `Completed` exactly when its outcome begins with `Recording completed`,
/// `Cancelled` exactly when it begins with `Cancelled` and not with that, and `Failed` on every
/// other outcome.
pub proof fn law_state_follows_outcome(outcome: Seq<char>, state: Seq<char>)
    requires
        state == outcome_state(outcome),
    ensures
        state == "Completed"@ <==> "Recording completed"@.is_prefix_of(outcome),
        state == "Cancelled"@ <==> (!"Recording completed"@.is_prefix_of(outcome)
            && "Cancelled"@.is_prefix_of(outcome)),
        state == "Failed"@ <==> (!"Recording completed"@.is_prefix_of(outcome)
            && !"Cancelled"@.is_prefix_of(outcome)),
{
    reveal_strlit("Completed");
    reveal_strlit("Cancelled");
    reveal_strlit("Failed");
    assert("Completed"@[1] != "Cancelled"@[1]);
    assert("Completed"@[0] != "Failed"@[0]);
    assert("Cancelled"@[0] != "Failed"@[0]);
}

/// The last `\n` in `s[..e]`, or -1.
pub open spec fn last_newline(s: Seq<char>, e: int) -> int
    decreases e,
{
    if e <= 0 {
        -1
    } else if s[e - 1] == '\n' {
        e - 1
    } else {
        last_newline(s, e - 1)
    }
}

/// Among the lines of `s[..e]`, the last one that is not blank, trimmed.
pub open spec fn last_nonempty_line_before(s: Seq<char>, e: int) -> Option<Seq<char>>
    decreases e,
{
    if e < 0 {
        None
    } else {
        let j = last_newline(s, e);
        let line = trimmed(s.subrange(j + 1, e));
        if line.len() > 0 {
            Some(line)
        } else if j < 0 {
            None
        } else {
            proof {
                lemma_last_newline_below(s, e);
            }
            last_nonempty_line_before(s, j)
        }
    }
}

/// The last line break before `e` stands before `e`.
pub proof fn lemma_last_newline_below(s: Seq<char>, e: int)
    requires
        e >= 0,
    ensures
        last_newline(s, e) < e || e == 0,
    decreases e,
{
    if e > 0 && s[e - 1] != '\n' {
        lemma_last_newline_below(s, e - 1);
    }
}

proof fn lemma_last_newline_bounds(s: Seq<char>, e: int)
    requires
        0 <= e <= s.len(),
    ensures
        -1 <= last_newline(s, e) < e,
        last_newline(s, e) >= 0 ==> s[last_newline(s, e)] == '\n',
    decreases e,
{
    if e > 0 && s[e - 1] != '\n' {
        lemma_last_newline_bounds(s, e - 1);
    }
}

/// The last line of `contents` that is not blank, trimmed: where yt-dlp's receipt names the
/// recording's final path. Lines end at `\n`; the `\r` of a `\r\n` ending goes with the trimming.
pub fn last_nonempty_line(contents: &str) -> (r: Option<String>)
    ensures
        match r {
            Some(line) => last_nonempty_line_before(contents@, contents@.len() as int) == Some(
                line@,
            ),
            None => last_nonempty_line_before(contents@, contents@.len() as int) is None,
        },
{
    let chars = chars_of(contents);
    let mut e = chars.len();
    loop
        invariant
            chars@ == contents@,
            e <= chars.len(),
            last_nonempty_line_before(contents@, contents@.len() as int)
                == last_nonempty_line_before(contents@, e as int),
        decreases e,
    {
        let mut k = e;
        while k > 0 && chars[k - 1] != '\n'
            invariant
                k <= e <= chars.len(),
                last_newline(chars@, e as int) == last_newline(chars@, k as int),
            decreases k,
        {
            k = k - 1;
        }
        proof {
            lemma_last_newline_bounds(chars@, e as int);
        }
        let line = string_from_range(&chars, k, e);
        let t = trim(line.as_str());
        if !t.as_str().is_empty() {
            return Some(t);
        }
        if k == 0 {
            return None;
        }
        e = k - 1;
    }
}

} // verus!
