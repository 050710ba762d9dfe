//! Importing the configuration file of the earlier command-line recorder.
use vstd::prelude::*;

use crate::clock::{current_time, new_record_id};
use crate::database::{has_target, has_url, fresh_target, insert_outcome, Database};
use crate::models::{copy_opt, AppSettings, LegacyImportResult, WatchTarget};
use crate::text::{texts, trim, trimmed};
use crate::urls::{is_http_url, is_http_url_text, parse_url, url_parts};

verus! {

/// The earlier recorder's configuration: stream URLs, a yt-dlp path, a check interval and a
/// download directory.
#[derive(Debug, PartialEq, Eq)]
pub struct LegacyConfig {
    pub streams: Vec<String>,
    pub yt_dlp_path: Option<String>,
    pub check_interval_seconds: Option<u64>,
    pub download_directory: Option<String>,
}

/// The name given to an imported stream: its URL's host, else `Imported stream`.
pub open spec fn imported_name(url: Seq<char>) -> Seq<char> {
    match url_parts(url) {
        Some((_, Some(host), _)) => host,
        _ => "Imported stream"@,
    }
}

/// The name given to an imported stream at `url`.
fn name_for(url: &str) -> (r: String)
    ensures
        r@ == imported_name(url@),
{
    match parse_url(url) {
        Some(parts) => match parts.host {
            Some(h) => h,
            None => "Imported stream".to_owned(),
        },
        None => "Imported stream".to_owned(),
    }
}

/// The identifiers of the rows, in order.
pub open spec fn row_ids(rows: Seq<WatchTarget>) -> Seq<Seq<char>> {
    rows.map_values(|t: WatchTarget| t.id@)
}

/// The URLs of the rows, in order.
pub open spec fn row_urls(rows: Seq<WatchTarget>) -> Seq<Seq<char>> {
    rows.map_values(|t: WatchTarget| t.url@)
}

/// The identifiers at the given positions.
pub open spec fn ids_at(ids: Seq<Seq<char>>, positions: Seq<int>) -> Seq<Seq<char>> {
    positions.map_values(|q: int| ids[q])
}

/// The trimmed stream URLs at the given positions.
pub open spec fn urls_at(streams: Seq<Seq<char>>, positions: Seq<int>) -> Seq<Seq<char>> {
    positions.map_values(|q: int| trimmed(streams[q]))
}

/// The positions, among the first `n` streams, of those that an import adds to a watch list
/// whose identifiers are `taken_ids` and whose URLs are `taken_urls`: each stream whose URL is an
/// absolute HTTP(S) URL once trimmed, whose identifier `ids[q]` is not taken and whose URL is
/// not on the list, the streams added before it included.
pub open spec fn added_streams(
    taken_ids: Seq<Seq<char>>,
    taken_urls: Seq<Seq<char>>,
    streams: Seq<Seq<char>>,
    ids: Seq<Seq<char>>,
    n: int,
) -> Seq<int>
    decreases n,
{
    if n <= 0 {
        Seq::empty()
    } else {
        let prev = added_streams(taken_ids, taken_urls, streams, ids, n - 1);
        let url = trimmed(streams[n - 1]);
        if is_http_url_text(url) && !(taken_ids + ids_at(ids, prev)).contains(ids[n - 1]) && !(
        taken_urls + urls_at(streams, prev)).contains(url) {
            prev.push(n - 1)
        } else {
            prev
        }
    }
}

/// The `q`-th stream, an absolute HTTP(S) URL once trimmed, became `row`.
pub open spec fn imported_from(
    row: WatchTarget,
    streams: Seq<Seq<char>>,
    ids: Seq<Seq<char>>,
    tss: Seq<Seq<char>>,
    q: int,
) -> bool {
    &&& is_http_url_text(trimmed(streams[q]))
    &&& fresh_target(row, ids[q], tss[q], imported_name(trimmed(streams[q])), trimmed(streams[q]))
}

/// What importing `streams`, the `q`-th under identifier `ids[q]` at time `tss[q]`, did to the
/// watch list, given how many streams were imported and how many skipped: the streams that
/// `added_streams` picks were appended in order, the others skipped.
pub open spec fn import_outcome(
    before: Seq<WatchTarget>,
    after: Seq<WatchTarget>,
    streams: Seq<Seq<char>>,
    ids: Seq<Seq<char>>,
    tss: Seq<Seq<char>>,
    imported: int,
    skipped: int,
) -> bool {
    let added = added_streams(row_ids(before), row_urls(before), streams, ids, streams.len() as int);
    &&& imported == added.len()
    &&& skipped == streams.len() - added.len()
    &&& after.len() == before.len() + added.len()
    &&& after.subrange(0, before.len() as int) == before
    &&& forall|m: int|
        0 <= m < added.len() ==> imported_from(
            #[trigger] after[before.len() + m],
            streams,
            ids,
            tss,
            added[m],
        )
}

proof fn lemma_taken(rows: Seq<WatchTarget>, x: Seq<char>)
    ensures
        has_target(rows, x) <==> row_ids(rows).contains(x),
        has_url(rows, x) <==> row_urls(rows).contains(x),
{
    if has_target(rows, x) {
        let i = choose|i: int| 0 <= i < rows.len() && rows[i].id@ == x;
        assert(row_ids(rows)[i] == x);
    }
    if row_ids(rows).contains(x) {
        let i = choose|i: int| 0 <= i < row_ids(rows).len() && row_ids(rows)[i] == x;
        assert(rows[i].id@ == x);
    }
    if has_url(rows, x) {
        let i = choose|i: int| 0 <= i < rows.len() && rows[i].url@ == x;
        assert(row_urls(rows)[i] == x);
    }
    if row_urls(rows).contains(x) {
        let i = choose|i: int| 0 <= i < row_urls(rows).len() && row_urls(rows)[i] == x;
        assert(rows[i].url@ == x);
    }
}

/// Adds each stream URL that is an absolute HTTP(S) URL once trimmed, named after its host,
/// under `ids[i]` at `timestamps[i]` for the `i`-th; URLs that are not, or whose identifier or
/// URL is already on the watch list, are skipped (see `import_outcome`). Returns how many were
/// imported and how many skipped.
pub fn import_streams_at(
    database: &mut Database,
    streams: &Vec<String>,
    ids: &Vec<String>,
    timestamps: &Vec<String>,
) -> (r: (usize, usize))
    requires
        old(database).wf(),
        ids.len() == streams.len(),
        timestamps.len() == streams.len(),
    ensures
        final(database).wf(),
        import_outcome(
            old(database).target_rows(),
            final(database).target_rows(),
            texts(streams@),
            texts(ids@),
            texts(timestamps@),
            r.0 as int,
            r.1 as int,
        ),
        final(database).job_rows() == old(database).job_rows(),
        final(database).saved_settings() == old(database).saved_settings(),
        final(database).default_settings() == old(database).default_settings(),
{
    broadcast use {
        vstd::seq_lib::lemma_seq_concat_contains_all_elements,
        vstd::seq_lib::lemma_seq_contains_after_push,
    };

    let ghost before = database.target_rows();
    let ghost ss = texts(streams@);
    let ghost is = texts(ids@);
    let ghost ts = texts(timestamps@);
    let ghost bi = row_ids(before);
    let ghost bu = row_urls(before);
    let mut imported: usize = 0;
    let mut skipped: usize = 0;
    let mut i: usize = 0;
    while i < streams.len()
        invariant
            i <= streams.len(),
            ids.len() == streams.len(),
            timestamps.len() == streams.len(),
            ss == texts(streams@),
            is == texts(ids@),
            ts == texts(timestamps@),
            database.wf(),
            database.job_rows() == old(database).job_rows(),
            database.saved_settings() == old(database).saved_settings(),
            database.default_settings() == old(database).default_settings(),
            before == old(database).target_rows(),
            bi == row_ids(before),
            bu == row_urls(before),
            imported == added_streams(bi, bu, ss, is, i as int).len(),
            skipped == i - imported,
            database.target_rows().len() == before.len() + imported,
            database.target_rows().subrange(0, before.len() as int) == before,
            row_ids(database.target_rows()) == bi + ids_at(is, added_streams(bi, bu, ss, is, i as int)),
            row_urls(database.target_rows()) == bu + urls_at(
                ss,
                added_streams(bi, bu, ss, is, i as int),
            ),
            forall|m: int|
                0 <= m < imported ==> imported_from(
                    #[trigger] database.target_rows()[before.len() + m],
                    ss,
                    is,
                    ts,
                    added_streams(bi, bu, ss, is, i as int)[m],
                ),
        decreases streams.len() - i,
    {
        let url = trim(streams[i].as_str());
        assert(ss[i as int] == streams@[i as int]@);
        assert(is[i as int] == ids@[i as int]@);
        assert(ts[i as int] == timestamps@[i as int]@);
        let ghost rows0 = database.target_rows();
        let ghost prev = added_streams(bi, bu, ss, is, i as int);
        if !is_http_url(url.as_str()) {
            skipped = skipped + 1;
            assert(added_streams(bi, bu, ss, is, i + 1) == prev);
        } else {
            let name = name_for(url.as_str());
            proof {
                lemma_taken(rows0, is[i as int]);
                lemma_taken(rows0, url@);
            }
            let r = database.insert_target_at(
                ids[i].as_str(),
                timestamps[i].as_str(),
                name.as_str(),
                url.as_str(),
            );
            match r {
                Ok(_) => {
                    imported = imported + 1;
                    proof {
                        let rows1 = database.target_rows();
                        let next = prev.push(i as int);
                        assert(added_streams(bi, bu, ss, is, i + 1) == next);
                        assert(rows1 == rows0.push(rows1.last()));
                        assert(rows1.subrange(0, before.len() as int) =~= rows0.subrange(
                            0,
                            before.len() as int,
                        ));
                        assert(ids_at(is, next) =~= ids_at(is, prev).push(is[i as int]));
                        assert(urls_at(ss, next) =~= urls_at(ss, prev).push(url@));
                        assert(row_ids(rows1) =~= row_ids(rows0).push(is[i as int]));
                        assert(row_urls(rows1) =~= row_urls(rows0).push(url@));
                        assert(row_ids(rows1) =~= bi + ids_at(is, next));
                        assert(row_urls(rows1) =~= bu + urls_at(ss, next));
                        assert forall|m: int| 0 <= m < imported implies imported_from(
                            #[trigger] rows1[before.len() + m],
                            ss,
                            is,
                            ts,
                            next[m],
                        ) by {
                            if m < imported - 1 {
                                assert(rows1[before.len() + m] == rows0[before.len() + m]);
                                assert(next[m] == prev[m]);
                            } else {
                                assert(before.len() + m == rows0.len());
                            }
                        }
                    }
                },
                Err(_) => {
                    skipped = skipped + 1;
                    assert(added_streams(bi, bu, ss, is, i + 1) == prev);
                },
            }
        }
        i = i + 1;
    }
    (imported, skipped)
}

/// The earlier configuration names a download directory that is not blank.
pub open spec fn takes_directory(legacy: LegacyConfig) -> bool {
    legacy.download_directory matches Some(d) && trimmed(d@).len() > 0
}

/// The earlier configuration names a check interval of at least 30 seconds.
pub open spec fn takes_interval(legacy: LegacyConfig) -> bool {
    legacy.check_interval_seconds matches Some(v) && v >= 30
}

/// The earlier configuration names a yt-dlp path that is not blank.
pub open spec fn takes_ytdlp(legacy: LegacyConfig) -> bool {
    legacy.yt_dlp_path matches Some(p) && trimmed(p@).len() > 0
}

/// `read` with the download directory, check interval and yt-dlp path that the earlier
/// configuration supplies.
pub open spec fn merged_settings(read: AppSettings, legacy: LegacyConfig) -> AppSettings {
    AppSettings {
        download_directory: if takes_directory(legacy) {
            legacy.download_directory->0
        } else {
            read.download_directory
        },
        probe_interval_seconds: if takes_interval(legacy) {
            legacy.check_interval_seconds->0
        } else {
            read.probe_interval_seconds
        },
        external_ytdlp_path: if takes_ytdlp(legacy) {
            legacy.yt_dlp_path
        } else {
            read.external_ytdlp_path
        },
        ..read
    }
}

/// Imports the earlier configuration `legacy`, read from `source_path`: each stream URL as
/// `import_streams_at` does, under fresh identifiers and the current time, then the download
/// directory, check interval and yt-dlp path it supplies into the settings.
pub fn import_legacy_config(database: &mut Database, legacy: &LegacyConfig, source_path: &str) -> (r:
    LegacyImportResult)
    requires
        old(database).wf(),
    ensures
        final(database).wf(),
        exists|ids: Seq<Seq<char>>, tss: Seq<Seq<char>>|
            #[trigger] import_outcome(
                old(database).target_rows(),
                final(database).target_rows(),
                texts(legacy.streams@),
                ids,
                tss,
                r.imported as int,
                r.skipped as int,
            ),
        r.source_path@ == source_path@,
        r.settings_imported == (takes_directory(*legacy) || takes_interval(*legacy) || takes_ytdlp(
            *legacy,
        )),
        final(database).saved_settings() == Some(
            merged_settings(
                match old(database).saved_settings() {
                    Some(s) => s,
                    None => old(database).default_settings(),
                },
                *legacy,
            ),
        ),
        final(database).job_rows() == old(database).job_rows(),
        final(database).default_settings() == old(database).default_settings(),
{
    let n = legacy.streams.len();
    let mut ids: Vec<String> = Vec::new();
    let mut timestamps: Vec<String> = Vec::new();
    let mut i: usize = 0;
    while i < n
        invariant
            i <= n,
            ids.len() == i,
            timestamps.len() == i,
        decreases n - i,
    {
        ids.push(new_record_id());
        timestamps.push(current_time());
        i = i + 1;
    }
    let (imported, skipped) = import_streams_at(database, &legacy.streams, &ids, &timestamps);
    assert(import_outcome(
        old(database).target_rows(),
        database.target_rows(),
        texts(legacy.streams@),
        texts(ids@),
        texts(timestamps@),
        imported as int,
        skipped as int,
    ));
    let ghost rows = database.target_rows();
    let mut settings = database.settings();
    let ghost read = settings;
    let mut settings_imported = false;
    match &legacy.download_directory {
        Some(d) => {
            if !trim(d.as_str()).as_str().is_empty() {
                settings.download_directory = d.clone();
                settings_imported = true;
            }
        },
        None => {},
    }
    match legacy.check_interval_seconds {
        Some(v) => {
            if v >= 30 {
                settings.probe_interval_seconds = v;
                settings_imported = true;
            }
        },
        None => {},
    }
    match &legacy.yt_dlp_path {
        Some(p) => {
            if !trim(p.as_str()).as_str().is_empty() {
                settings.external_ytdlp_path = copy_opt(&legacy.yt_dlp_path);
                settings_imported = true;
            }
        },
        None => {},
    }
    assert(settings == merged_settings(read, *legacy));
    if settings_imported {
        database.save_settings(&settings);
    }
    assert(database.target_rows() == rows);
    let res = LegacyImportResult {
        imported,
        skipped,
        source_path: source_path.to_owned(),
        settings_imported,
    };
    // The identifiers and times drawn above witness the outcome.
    assert(import_outcome(
        old(database).target_rows(),
        database.target_rows(),
        texts(legacy.streams@),
        texts(ids@),
        texts(timestamps@),
        res.imported as int,
        res.skipped as int,
    ));
    res
}

/// After an import, the saved settings take the earlier configuration's yt-dlp path, download
/// directory and check interval where it names a usable one (a path or directory that is not
/// blank, an interval of at least 30 seconds), whatever was saved before; every other setting,
/// and each of these three that the configuration does not supply, keeps the value read before.
pub proof fn law_import_takes_legacy_settings(
    legacy: LegacyConfig,
    read: AppSettings,
    saved: Option<AppSettings>,
)
    requires
        saved == Some(merged_settings(read, legacy)),
    ensures
        saved matches Some(s) && {
            &&& s.locale == read.locale
            &&& s.theme == read.theme
            &&& s.max_concurrent_probes == read.max_concurrent_probes
            &&& s.max_concurrent_recordings == read.max_concurrent_recordings
            &&& s.launch_to_tray == read.launch_to_tray
            &&& s.start_with_windows == read.start_with_windows
            &&& s.notifications_enabled == read.notifications_enabled
            &&& s.retain_logs_days == read.retain_logs_days
            &&& s.external_ytdlp_path == match legacy.yt_dlp_path {
                Some(p) => if trimmed(p@).len() > 0 {
                    Some(p)
                } else {
                    read.external_ytdlp_path
                },
                None => read.external_ytdlp_path,
            }
            &&& s.download_directory == match legacy.download_directory {
                Some(d) => if trimmed(d@).len() > 0 {
                    d
                } else {
                    read.download_directory
                },
                None => read.download_directory,
            }
            &&& s.probe_interval_seconds == match legacy.check_interval_seconds {
                Some(v) => if v >= 30 {
                    v
                } else {
                    read.probe_interval_seconds
                },
                None => read.probe_interval_seconds,
            }
        },
{
}

} // verus!
