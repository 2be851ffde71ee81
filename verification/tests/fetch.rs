use shamash::fetch::{
    cache_dir_name, download_args, download_verdict, first_fetch_action, join_path,
    next_fetch_action, reported_path, stage_format, transcode_outcome, DownloadProblem,
    FetchAction, FetchStage, TranscodeError, BEST_FORMAT, DECODABLE_FORMAT,
};

#[test]
fn decodable_format_avoids_opus_and_prefers_aac() {
    // Opus has no symphonia decoder, so no branch of the selector may
    // resolve to it.
    assert!(DECODABLE_FORMAT.contains("acodec!=opus"));
    assert!(!DECODABLE_FORMAT.contains("[acodec=opus]"));
    assert!(DECODABLE_FORMAT.starts_with("bestaudio[acodec^=mp4a]"));
    // Every branch must be audio-only: a video stream would be silent.
    for branch in DECODABLE_FORMAT.split('/') {
        assert!(
            branch.contains("bestaudio"),
            "selector branch is not audio-only: {branch}"
        );
    }
}

#[test]
fn each_download_forces_a_real_one() {
    let args: Vec<String> = download_args("https://youtu.be/abc", "/tmp/shamash-1", DECODABLE_FORMAT);
    assert!(
        args.iter().any(|a| a == "--force-overwrites"),
        "a stale file would be replayed: {args:?}"
    );
    assert!(
        !args.iter().any(|a| a == "--no-part"),
        "the output must be renamed into place, not written in place: {args:?}"
    );
    assert_eq!(args.last().unwrap(), "https://youtu.be/abc");
}

#[test]
fn each_guild_gets_its_own_directory() {
    assert_ne!(cache_dir_name(1), cache_dir_name(2));
    assert!(cache_dir_name(42).ends_with("shamash-42"));
}

#[test]
fn download_arguments_are_in_order() {
    let args = download_args("u", "/tmp/d", BEST_FORMAT);
    assert_eq!(
        args,
        vec![
            "--no-playlist",
            "--no-warnings",
            "--no-simulate",
            "--force-overwrites",
            "--format",
            "bestaudio",
            "--output",
            "/tmp/d/track.%(ext)s",
            "--print",
            "after_move:filepath",
            "u",
        ]
    );
}

#[test]
fn paths_join_like_path_join() {
    assert_eq!(join_path("/tmp/d", "x"), "/tmp/d/x");
    assert_eq!(join_path("/tmp/d/", "x"), "/tmp/d/x");
    assert_eq!(join_path("", "x"), "x");
    assert_eq!(cache_dir_name(0), "shamash-0");
    assert_eq!(cache_dir_name(u64::MAX), "shamash-18446744073709551615");
}

#[test]
fn the_last_reported_path_wins() {
    assert_eq!(
        reported_path("/tmp/a.m4a\n/tmp/b.m4a\n\n  \n").as_deref(),
        Some("/tmp/b.m4a")
    );
    assert_eq!(reported_path("  /tmp/c.wav \r\n").as_deref(), Some("/tmp/c.wav"));
    assert_eq!(reported_path(""), None);
    assert_eq!(reported_path("\n \n"), None);
}

#[test]
fn transcode_outcomes() {
    assert_eq!(transcode_outcome(true, ""), Ok(()));
    assert_eq!(
        transcode_outcome(true, "warning\nOutput file is empty, nothing was encoded"),
        Err(TranscodeError::EmptyOutput)
    );
    assert_eq!(
        transcode_outcome(false, "  bad input \n"),
        Err(TranscodeError::Failed("bad input".to_string()))
    );
}

#[test]
fn a_download_must_be_fresh_and_non_empty() {
    assert_eq!(download_verdict(0, true), Err(DownloadProblem::Empty));
    assert_eq!(download_verdict(0, false), Err(DownloadProblem::Empty));
    assert_eq!(download_verdict(10, false), Err(DownloadProblem::Untouched));
    assert_eq!(download_verdict(10, true), Ok(()));
}

#[test]
fn fetching_tries_the_decodable_stream_then_transcodes_the_best() {
    assert_eq!(first_fetch_action(), FetchAction::Run(FetchStage::Decodable));
    assert_eq!(stage_format(FetchStage::Decodable), Some(DECODABLE_FORMAT));
    assert_eq!(stage_format(FetchStage::Best), Some(BEST_FORMAT));
    assert_eq!(stage_format(FetchStage::Transcode), None);
    assert_eq!(next_fetch_action(FetchStage::Decodable, true), FetchAction::UseDownload);
    assert_eq!(next_fetch_action(FetchStage::Decodable, false), FetchAction::Run(FetchStage::Best));
    assert_eq!(next_fetch_action(FetchStage::Best, true), FetchAction::Run(FetchStage::Transcode));
    assert_eq!(next_fetch_action(FetchStage::Best, false), FetchAction::Fail);
    assert_eq!(next_fetch_action(FetchStage::Transcode, true), FetchAction::UseTranscoded);
    assert_eq!(next_fetch_action(FetchStage::Transcode, false), FetchAction::Fail);
}
