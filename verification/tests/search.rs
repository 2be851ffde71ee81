use shamash::search::{search_args, select, Candidate, RunningTime, DEFAULT_CANDIDATES};

/// How a reported duration compares with the length of a song (30 s to 15 min).
fn running_time(duration: Option<f64>) -> RunningTime {
    match duration {
        None => RunningTime::Unknown,
        Some(d) if (30.0..=15.0 * 60.0).contains(&d) => RunningTime::SongLength,
        Some(_) => RunningTime::NotSongLength,
    }
}

fn candidate(title: &str, views: Option<u64>, duration: Option<f64>) -> Candidate {
    Candidate {
        title: Some(title.to_string()),
        url: format!("https://youtu.be/{title}"),
        view_count: views,
        running_time: running_time(duration),
        channel: Some("someone".to_string()),
    }
}

#[test]
fn picks_most_viewed_song() {
    let entries = [
        candidate("song a", Some(1_000), Some(200.0)),
        candidate("song b", Some(900_000), Some(180.0)),
        candidate("song c", Some(5_000), Some(210.0)),
    ];
    assert_eq!(select(&entries).unwrap().title(), "song b");
}

#[test]
fn skips_clips_and_mixes() {
    let entries = [
        candidate("song intro clip", Some(9_000_000), Some(20.0)),
        candidate("vlog about the song", Some(8_000_000), Some(600.0)),
        candidate("full album mix", Some(7_000_000), Some(3_600.0)),
        candidate("the real song", Some(50_000), Some(200.0)),
    ];
    assert_eq!(select(&entries).unwrap().title(), "the real song");
}

#[test]
fn deprioritises_covers_remixes_and_lyric_videos() {
    let entries = [
        candidate("song (slowed + reverb)", Some(4_000_000), Some(200.0)),
        candidate("song (nightcore)", Some(3_000_000), Some(200.0)),
        candidate("song (lyric video)", Some(2_000_000), Some(210.0)),
        candidate("song", Some(100_000), Some(205.0)),
    ];
    assert_eq!(select(&entries).unwrap().title(), "song");
}

#[test]
fn keeps_unknown_duration_candidates() {
    let entries = [
        candidate("no duration", Some(10), None),
        candidate("short but known", Some(99_999), Some(10.0)),
    ];
    assert_eq!(select(&entries).unwrap().title(), "no duration");
}

#[test]
fn falls_back_when_everything_is_a_clip() {
    let entries = [
        candidate("clip", Some(100), Some(10.0)),
        candidate("long mix", Some(50), Some(4_000.0)),
    ];
    assert_eq!(select(&entries).unwrap().title(), "clip");
}

#[test]
fn no_results_selects_nothing() {
    assert!(select(&[]).is_none());
}

#[test]
fn equally_viewed_songs_go_to_the_later_one() {
    let entries = [
        candidate("first", Some(7), Some(100.0)),
        candidate("second", Some(7), Some(100.0)),
        candidate("Karaoke Version", Some(9), Some(100.0)),
    ];
    assert_eq!(select(&entries).unwrap().title(), "second");
}

#[test]
fn markers_are_matched_in_any_letter_case_and_missing_views_count_as_zero() {
    let entries = [
        candidate("Song (REMIX)", Some(1_000), None),
        candidate("plain", None, None),
    ];
    assert!(!entries[0].is_song());
    assert!(entries[1].is_song());
    assert_eq!(entries[1].views(), 0);
    assert_eq!(select(&entries).unwrap().title(), "plain");
}

#[test]
fn missing_title_and_channel_read_as_unknown() {
    let c = Candidate {
        title: None,
        url: String::new(),
        view_count: None,
        running_time: RunningTime::Unknown,
        channel: None,
    };
    assert_eq!(c.title(), "unknown title");
    assert_eq!(c.channel(), "unknown channel");
    assert!(c.is_song());
}

#[test]
fn search_needs_at_least_one_candidate() {
    assert_eq!(search_args("look at me", 0), None);
    assert_eq!(
        search_args("look at me", DEFAULT_CANDIDATES).unwrap(),
        vec![
            "-j",
            "--flat-playlist",
            "--no-warnings",
            "--playlist-end",
            "10",
            "ytsearch10:look at me",
        ]
    );
}
