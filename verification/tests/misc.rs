use shamash::bot::{stop_reply, touches_target, StopOutcome};
use shamash::parakeet::{lines_last_first, stderr_tail, HandyTranscriber, DEFAULT_MODEL};
use shamash::parser::CommandParser;
use shamash::pipeline::{triage, Heard};
use shamash::voice::{
    connection_wait_step, count_listeners, sync_action, wake_word_listing, ChannelAction,
    ConnectionWait, VoiceMember, CONNECT_CHECKS, CONNECT_PAUSE_MS,
};
use shamash::whisper::transcript_of_segments;

#[test]
fn presence_follows_the_members_of_the_channel() {
    let members = [
        VoiceMember { channel_id: Some(5), user_id: 1 },
        VoiceMember { channel_id: Some(5), user_id: 99 },
        VoiceMember { channel_id: Some(6), user_id: 2 },
        VoiceMember { channel_id: None, user_id: 3 },
        VoiceMember { channel_id: Some(5), user_id: 4 },
    ];
    assert_eq!(count_listeners(&members, 5, 99), 2);
    assert_eq!(count_listeners(&members, 7, 99), 0);
    assert_eq!(sync_action(0, true), ChannelAction::Leave);
    assert_eq!(sync_action(0, false), ChannelAction::Stay);
    assert_eq!(sync_action(2, false), ChannelAction::Join);
    assert_eq!(sync_action(2, true), ChannelAction::Stay);
}

#[test]
fn listening_announcement_is_sorted() {
    let parser = CommandParser::new(
        ["ut", "bot", "play", "ot", "BOT"].into_iter().map(str::to_string).collect(),
    );
    assert_eq!(wake_word_listing(parser.wake_words()), "bot, ot, play, ut");
    let empty = CommandParser::new(Vec::new());
    assert_eq!(wake_word_listing(empty.wake_words()), "");
}

#[test]
fn blank_transcripts_are_counted_not_reported() {
    assert_eq!(triage("  \n", 3), (Heard::Blank, 4));
    assert_eq!(triage("", usize::MAX), (Heard::Blank, 0));
    assert_eq!(triage(" bot play x ", 3), (Heard::Words { skipped: 3 }, 0));
}

#[test]
fn voice_updates_concern_the_target_when_entering_or_leaving() {
    assert!(touches_target(Some(5), None, 5));
    assert!(touches_target(None, Some(5), 5));
    assert!(touches_target(Some(6), Some(5), 5));
    assert!(!touches_target(Some(6), Some(7), 5));
    assert!(!touches_target(None, None, 5));
}

#[test]
fn stop_replies() {
    assert_eq!(stop_reply(&StopOutcome::Left), "Left the voice channel.");
    assert_eq!(stop_reply(&StopOutcome::NotConnected), "I wasn't in a voice channel.");
    assert_eq!(
        stop_reply(&StopOutcome::LeaveFailed("boom".to_string())),
        "Failed to leave: boom"
    );
    assert_eq!(
        stop_reply(&StopOutcome::NotInServer),
        "This command must be used in a server."
    );
    assert_eq!(
        stop_reply(&StopOutcome::Internal("no config".to_string())),
        "Internal error: no config"
    );
}

#[test]
fn handy_is_run_with_the_model_and_json_output() {
    let handy = HandyTranscriber::new(DEFAULT_MODEL);
    assert_eq!(handy.program_name(), "handy");
    assert_eq!(
        handy.args("/tmp/a.wav"),
        vec!["--transcribe-file", "/tmp/a.wav", "--json", "--model", DEFAULT_MODEL]
    );
    let missing = HandyTranscriber::with_program("handy-that-does-not-exist", DEFAULT_MODEL);
    let err = missing.missing_program_message();
    assert!(err.contains("could not find"), "unhelpful error: {err}");
    assert!(err.contains("ASR_ENGINE=whisper"), "no fallback named: {err}");
}

#[test]
fn error_output_is_cut_to_its_last_three_lines() {
    assert_eq!(stderr_tail("a\nb\nc\nd\n"), "b | c | d");
    assert_eq!(stderr_tail("a\r\nb"), "a | b");
    assert_eq!(stderr_tail(""), "");
    assert_eq!(stderr_tail("only\n\n"), "only | ");
}

#[test]
fn whisper_segments_join_into_one_transcript() {
    let segments = vec![" bot play".to_string(), "lofi ".to_string()];
    assert_eq!(transcript_of_segments(&segments), "bot play lofi");
    assert_eq!(transcript_of_segments(&Vec::new()), "");
}

#[test]
fn handy_output_is_read_from_its_last_line() {
    let stdout = "noise\r\n{\"load_ms\":5,\"transcribe_ms\":[7],\"text\":\"bot play lofi\"}\n";
    assert_eq!(
        lines_last_first(stdout),
        vec!["{\"load_ms\":5,\"transcribe_ms\":[7],\"text\":\"bot play lofi\"}", "noise"]
    );
    assert!(lines_last_first("").is_empty());
    assert_eq!(lines_last_first("a\n\nb"), vec!["b", "", "a"]);
}

#[test]
fn the_voice_connection_is_awaited_for_fifty_checks() {
    assert_eq!((CONNECT_CHECKS, CONNECT_PAUSE_MS), (50, 200));
    assert_eq!(connection_wait_step(0, true), ConnectionWait::Connected);
    assert_eq!(connection_wait_step(0, false), ConnectionWait::Retry);
    assert_eq!(connection_wait_step(48, false), ConnectionWait::Retry);
    assert_eq!(connection_wait_step(49, false), ConnectionWait::GiveUp);
    assert_eq!(connection_wait_step(49, true), ConnectionWait::Connected);
}
