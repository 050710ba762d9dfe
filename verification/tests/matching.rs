use live_downloader::database::Database;
use live_downloader::matching::{
    apply_output_plan, checked_candidate_score, identifiers_fit, legacy_candidate_score,
    normalize_name, plan_output_assignments, reconcile_output_paths, score_candidate,
    target_identifiers, OutputCandidate, Timestamp,
};
use live_downloader::models::{AppSettings, RecordingJob, WatchTarget};

fn target(name: &str, url: &str) -> WatchTarget {
    WatchTarget {
        id: "target-1".to_owned(),
        name: name.to_owned(),
        url: url.to_owned(),
        enabled: true,
        state: "Watching".to_owned(),
        status_detail: String::new(),
        next_check_at: None,
        last_checked_at: None,
        last_recording_at: None,
        active_job_id: None,
        created_at: "2026-07-13T00:00:00Z".to_owned(),
    }
}

#[test]
fn recognizes_the_previous_output_name_for_completed_jobs() {
    let target = WatchTarget {
        id: "target-1".to_owned(),
        name: "Reage Carlos".to_owned(),
        url: "https://www.twitch.tv/soucarlosdaniel".to_owned(),
        enabled: true,
        state: "Watching".to_owned(),
        status_detail: String::new(),
        next_check_at: None,
        last_checked_at: None,
        last_recording_at: None,
        active_job_id: None,
        created_at: "2026-07-13T00:00:00Z".to_owned(),
    };
    let job = RecordingJob {
        id: "job-1".to_owned(),
        target_id: target.id.clone(),
        target_name: target.name.clone(),
        state: "Completed".to_owned(),
        started_at: "2026-07-13T21:42:15Z".to_owned(),
        finished_at: Some("2026-07-13T22:00:00Z".to_owned()),
        output_path: None,
        message: "Recording completed".to_owned(),
        process_id: None,
    };
    let candidate = OutputCandidate {
        path: r"C:\Recordings\soucarlosdaniel_20260713_soucarlosdaniel (live) 2026-07-13 22_42.mp4"
            .to_owned(),
        normalized_name: normalize_name(
            "soucarlosdaniel_20260713_soucarlosdaniel (live) 2026-07-13 22_42",
        ),
        modified_at: None,
    };

    assert!(legacy_candidate_score(&candidate, &target, &job).is_some());
}

#[test]
fn normalizes_to_lowercase_letters_and_digits() {
    assert_eq!(normalize_name("Reage Carlos!"), "reagecarlos");
    assert_eq!(normalize_name("ÀB_c-9"), "àbc9");
    assert_eq!(normalize_name("İ"), "i\u{307}");
    assert_eq!(normalize_name(" - "), "");
}

#[test]
fn identifiers_come_from_name_and_channel_segment() {
    assert_eq!(
        target_identifiers(&target("Reage Carlos", "https://www.twitch.tv/soucarlosdaniel")),
        vec!["reagecarlos".to_owned(), "soucarlosdaniel".to_owned()]
    );
    assert_eq!(
        target_identifiers(&target("Zed Channel", "https://www.youtube.com/@Alpha/live")),
        vec!["alpha".to_owned(), "zedchannel".to_owned()]
    );
    assert_eq!(
        target_identifiers(&target("Chan", "https://www.youtube.com/@chan/videos")),
        vec!["chan".to_owned()]
    );
    assert_eq!(target_identifiers(&target("ab", "not a url")), Vec::<String>::new());
}

#[test]
fn scores_follow_the_formula() {
    let ids = vec!["carlos".to_owned(), "reagecarlos".to_owned()];
    let dates = vec!["20260713".to_owned()];
    let times = vec!["2242".to_owned()];
    assert_eq!(
        score_candidate("reagecarlos20260713x2242", &ids, &dates, &times, Some(100)),
        Some(10 + 11 + 5 + 10 + 5 + 5)
    );
    assert_eq!(
        score_candidate("xcarlos", &ids, &vec![], &vec![], Some(1000)),
        Some(10 + 6 + 3)
    );
    assert_eq!(score_candidate("xcarlos", &ids, &vec![], &vec![], Some(4000)), None);
    assert_eq!(score_candidate("xcarlos", &ids, &vec![], &vec![], None), None);
    assert_eq!(score_candidate("nothing", &ids, &dates, &times, Some(0)), None);
}

#[test]
fn proximity_alone_can_qualify_a_file() {
    let job = RecordingJob {
        id: "j".to_owned(),
        target_id: "target-1".to_owned(),
        target_name: "Chan".to_owned(),
        state: "Completed".to_owned(),
        started_at: "2026-07-13T21:00:00Z".to_owned(),
        finished_at: Some("2026-07-13T22:00:00Z".to_owned()),
        output_path: None,
        message: String::new(),
        process_id: None,
    };
    let near = OutputCandidate {
        path: "p".to_owned(),
        normalized_name: "chanstream".to_owned(),
        modified_at: Some(Timestamp { seconds: 1_783_980_000 + 120, nanos: 0 }),
    };
    assert_eq!(
        legacy_candidate_score(&near, &target("Chan", "x"), &job),
        Some(10 + 4 + 5 + 5)
    );
    let far = OutputCandidate {
        path: "p".to_owned(),
        normalized_name: "chanstream".to_owned(),
        modified_at: Some(Timestamp { seconds: 1_783_980_000 + 7200, nanos: 0 }),
    };
    assert_eq!(legacy_candidate_score(&far, &target("Chan", "x"), &job), None);
}

#[test]
fn each_file_goes_to_one_recording() {
    let scores = vec![
        vec![Some(5), Some(9), Some(9)],
        vec![Some(7), None, Some(9)],
        vec![None, None, None],
        vec![Some(1), Some(1), Some(1)],
    ];
    assert_eq!(
        plan_output_assignments(&scores, 3),
        vec![Some(2), Some(0), None, Some(1)]
    );
}

#[test]
fn reconciles_completed_recordings_without_a_path() {
    let mut database = Database::new(AppSettings::with_download_directory("d".to_owned()));
    database
        .insert_target_at("t1", "t", "Chan", "https://www.twitch.tv/chan")
        .unwrap();
    database.create_job_at("j1", "2026-07-13T21:00:00Z", "t1", None).unwrap();
    database.finish_job_at("j1", "Completed", "Recording completed", None, "2026-07-13T22:00:00Z");
    database.create_job_at("j2", "2026-07-14T21:00:00Z", "t1", Some("C:\\r\\kept.mp4")).unwrap();
    database.finish_job_at("j2", "Completed", "Recording completed", None, "2026-07-14T22:00:00Z");
    let candidates = vec![
        OutputCandidate {
            path: "C:\\r\\kept.mp4".to_owned(),
            normalized_name: "chan20260713".to_owned(),
            modified_at: None,
        },
        OutputCandidate {
            path: "C:\\r\\chan 2026-07-13.mp4".to_owned(),
            normalized_name: "chan20260713".to_owned(),
            modified_at: None,
        },
        OutputCandidate {
            path: "C:\\r\\other.mp4".to_owned(),
            normalized_name: "other20260713".to_owned(),
            modified_at: None,
        },
    ];
    let assigned = reconcile_output_paths(&mut database, &candidates);
    assert_eq!(
        assigned,
        vec![("j1".to_owned(), "C:\\r\\chan 2026-07-13.mp4".to_owned())]
    );
    assert_eq!(
        database.job("j1").unwrap().output_path.as_deref(),
        Some("C:\\r\\chan 2026-07-13.mp4")
    );
    assert_eq!(database.job("j2").unwrap().output_path.as_deref(), Some("C:\\r\\kept.mp4"));
}

#[test]
fn checked_scores_agree_with_plain_scores() {
    let job = RecordingJob {
        id: "j".to_owned(),
        target_id: "target-1".to_owned(),
        target_name: "Chan".to_owned(),
        state: "Completed".to_owned(),
        started_at: "2026-07-13T21:00:00Z".to_owned(),
        finished_at: Some("2026-07-13T22:00:00Z".to_owned()),
        output_path: None,
        message: String::new(),
        process_id: None,
    };
    let candidate = OutputCandidate {
        path: "p".to_owned(),
        normalized_name: "chan20260713".to_owned(),
        modified_at: None,
    };
    let stream = target("Chan", "https://www.twitch.tv/chan");
    assert!(identifiers_fit(&stream));
    assert_eq!(checked_candidate_score(&candidate, &stream, &job), Some(Some(10 + 4 + 5 + 10)));
    assert_eq!(
        checked_candidate_score(&candidate, &stream, &job),
        Some(legacy_candidate_score(&candidate, &stream, &job))
    );
    let stranger = OutputCandidate {
        path: "q".to_owned(),
        normalized_name: "other20260713".to_owned(),
        modified_at: None,
    };
    assert_eq!(checked_candidate_score(&stranger, &stream, &job), Some(None));
}

#[test]
fn a_plan_records_the_chosen_paths() {
    let mut database = Database::new(AppSettings::with_download_directory("d".to_owned()));
    database.insert_target_at("t1", "t", "Chan", "https://www.twitch.tv/chan").unwrap();
    let first = database.create_job_at("j1", "2026-07-13T21:00:00Z", "t1", None).unwrap();
    let second = database.create_job_at("j2", "2026-07-14T21:00:00Z", "t1", None).unwrap();
    let free = vec![
        OutputCandidate { path: "a.mp4".to_owned(), normalized_name: "a".to_owned(), modified_at: None },
        OutputCandidate { path: "b.mp4".to_owned(), normalized_name: "b".to_owned(), modified_at: None },
    ];
    let pairs = apply_output_plan(
        &mut database,
        &vec![first, second],
        &free,
        &vec![Some(1), None],
    );
    assert_eq!(pairs, vec![("j1".to_owned(), "b.mp4".to_owned())]);
    assert_eq!(database.job("j1").unwrap().output_path.as_deref(), Some("b.mp4"));
    assert_eq!(database.job("j2").unwrap().output_path, None);
}

#[test]
fn proximity_is_truncated_to_whole_seconds() {
    let job = RecordingJob {
        id: "j".to_owned(),
        target_id: "target-1".to_owned(),
        target_name: "Chan".to_owned(),
        state: "Completed".to_owned(),
        started_at: "2026-07-13T21:00:00Z".to_owned(),
        finished_at: Some("2026-07-13T22:00:00Z".to_owned()),
        output_path: None,
        message: String::new(),
        process_id: None,
    };
    let at = |seconds: i64, nanos: u32| OutputCandidate {
        path: "p".to_owned(),
        normalized_name: "chanstream".to_owned(),
        modified_at: Some(Timestamp { seconds, nanos }),
    };
    let stream = target("Chan", "x");
    assert_eq!(legacy_candidate_score(&at(1_783_980_300, 500_000_000), &stream, &job), Some(24));
    assert_eq!(legacy_candidate_score(&at(1_783_979_699, 500_000_000), &stream, &job), Some(24));
    assert_eq!(legacy_candidate_score(&at(1_783_980_301, 0), &stream, &job), Some(22));
}

#[test]
fn a_claimed_file_is_recognised_whatever_its_separators() {
    let mut database = Database::new(AppSettings::with_download_directory("d".to_owned()));
    database.insert_target_at("t1", "t", "Chan", "https://www.twitch.tv/chan").unwrap();
    database.create_job_at("j1", "2026-07-13T21:00:00Z", "t1", None).unwrap();
    database.finish_job_at("j1", "Completed", "Recording completed", None, "2026-07-13T22:00:00Z");
    database.create_job_at("j2", "2026-07-13T20:00:00Z", "t1", Some("C:/r/./chan 2026-07-13.mp4")).unwrap();
    let candidates = vec![OutputCandidate {
        path: "C:\\r\\chan 2026-07-13.mp4".to_owned(),
        normalized_name: "chan20260713".to_owned(),
        modified_at: None,
    }];
    assert_eq!(reconcile_output_paths(&mut database, &candidates), vec![]);
    assert_eq!(database.job("j1").unwrap().output_path, None);
}
