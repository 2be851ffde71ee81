use shamash::parser::{normalize_chars, CommandParser, ParseMiss};

fn parser() -> CommandParser {
    CommandParser::new(["shamash", "bot"].into_iter().map(str::to_string).collect())
}

#[test]
fn extracts_title_and_artist() {
    let req = parser().parse("Shamash, play Dracula by Tame Impala").unwrap();
    assert_eq!(req.query, "dracula by tame impala");
    assert_eq!(req.title.as_deref(), Some("dracula"));
    assert_eq!(req.artist.as_deref(), Some("tame impala"));
}

#[test]
fn tolerates_greeting_words_after_wake_word() {
    let req = parser()
        .parse("Hey shamash, could you please play Bohemian Rhapsody!")
        .unwrap();
    assert_eq!(req.query, "bohemian rhapsody");
    assert_eq!(req.title, None);
}

#[test]
fn requires_a_wake_word() {
    assert!(parser().parse("play dracula by tame impala").is_none());
}

#[test]
fn requires_the_word_play() {
    assert!(parser().parse("shamash what's the weather").is_none());
}

#[test]
fn falls_back_to_raw_query_without_artist() {
    let req = parser().parse("bot play despacito").unwrap();
    assert_eq!(req.query, "despacito");
    assert_eq!(req.title, None);
    assert_eq!(req.artist, None);
}

#[test]
fn empty_request_after_play_is_rejected() {
    assert!(parser().parse("bot play").is_none());
}

#[test]
fn splits_on_last_by_for_multi_word_artist() {
    let req = parser().parse("shamash play us and them by pink floyd").unwrap();
    assert_eq!(req.title.as_deref(), Some("us and them"));
    assert_eq!(req.artist.as_deref(), Some("pink floyd"));
}

#[test]
fn case_and_punctuation_are_normalised() {
    let req = parser()
        .parse("BOT: PLAY \u{2019}talking\u{2019} BY Sade!")
        .unwrap();
    assert_eq!(req.query, "talking by sade");
}

#[test]
fn play_after_wake_word_is_required() {
    assert!(parser().parse("play danger zone shamash").is_none());
}

#[test]
fn empty_transcript_is_rejected() {
    assert!(parser().parse("   ").is_none());
}

#[test]
fn reports_why_a_transcript_was_rejected() {
    let parser = parser();
    assert_eq!(
        parser.parse_with_reason("what is the weather"),
        Err(ParseMiss::NoWakeWord)
    );
    assert_eq!(
        parser.parse_with_reason("shamash what is the weather"),
        Err(ParseMiss::NoPlayVerb)
    );
    assert_eq!(
        parser.parse_with_reason("shamash play"),
        Err(ParseMiss::EmptyRequest)
    );
    assert!(parser.parse_with_reason("shamash play despacito").is_ok());
}

#[test]
fn parse_agrees_with_parse_with_reason() {
    let parser = parser();
    for transcript in [
        "shamash play dracula by tame impala",
        "bot play despacito",
        "no wake word here",
        "shamash play",
        "  ",
    ] {
        assert_eq!(
            parser.parse(transcript),
            parser.parse_with_reason(transcript).ok()
        );
    }
}

#[test]
fn exposes_configured_wake_words() {
    let parser = parser();
    let words = parser.wake_words();
    assert!(words.contains("shamash"));
    assert!(words.contains("bot"));
}

#[test]
fn long_wake_words_tolerate_one_misheard_character() {
    let parser = parser();
    let req = parser.parse("shemash play dracula").unwrap();
    assert_eq!(req.query, "dracula");
    let req = parser.parse("shammash play dracula").unwrap();
    assert_eq!(req.query, "dracula");
    let req = parser.parse("shmash play dracula").unwrap();
    assert_eq!(req.query, "dracula");
    assert_eq!(
        parser.parse_with_reason("shemmesh play dracula"),
        Err(ParseMiss::NoWakeWord)
    );
}

#[test]
fn short_wake_words_must_be_heard_exactly() {
    let parser = parser();
    assert_eq!(parser.parse_with_reason("not play x"), Err(ParseMiss::NoWakeWord));
    assert_eq!(parser.parse_with_reason("boy play x"), Err(ParseMiss::NoWakeWord));
    assert!(parser.parse("bot play x").is_some());
}

#[test]
fn play_stands_in_for_the_wake_word() {
    let parser = CommandParser::new(
        ["bot", "play", "ut", "ot"].into_iter().map(str::to_string).collect(),
    );
    let req = parser.parse("Play Despacito").unwrap();
    assert_eq!(req.query, "despacito");
    let req = parser.parse("ut play lofi").unwrap();
    assert_eq!(req.query, "lofi");
    assert_eq!(parser.parse_with_reason("play"), Err(ParseMiss::EmptyRequest));
}

#[test]
fn wake_words_are_lowercased_and_held_once() {
    let parser = CommandParser::new(
        ["Shamash", "SHAMASH", "bot"].into_iter().map(str::to_string).collect(),
    );
    let words = parser.wake_words();
    assert_eq!(words.as_slice().len(), 2);
    assert!(words.contains("shamash"));
    assert!(!words.contains("Shamash"));
    assert!(parser.parse("shamash play x").is_some());
}

#[test]
fn letter_case_does_not_change_the_parse() {
    let parser = parser();
    assert_eq!(
        parser.parse("SHAMASH PLAY DRACULA BY TAME IMPALA"),
        parser.parse("shamash play dracula by tame impala")
    );
}

#[test]
fn empty_title_or_artist_keeps_the_raw_query() {
    let req = parser().parse("bot play by the way").unwrap();
    assert_eq!(req.query, "by the way");
    assert_eq!(req.title, None);
    let req = parser().parse("bot play stand by").unwrap();
    assert_eq!(req.query, "stand by");
    assert_eq!(req.artist, None);
}

#[test]
fn miss_reasons_read_as_the_bot_reports_them() {
    assert_eq!(ParseMiss::NoWakeWord.reason(), "no wake word heard");
    assert_eq!(ParseMiss::NoPlayVerb.reason(), "no \"play\" after the wake word");
    assert_eq!(ParseMiss::EmptyRequest.reason(), "nothing to play after \"play\"");
}

#[test]
fn normalising_twice_changes_nothing() {
    let raw: Vec<char> = "  Hey,   BOT!! play\tDracula -- by Tame\nImpala.  ".chars().collect();
    let once = normalize_chars(&raw);
    let once_text: String = once.iter().collect();
    assert_eq!(once_text, "hey bot play dracula by tame impala");
    assert_eq!(normalize_chars(&once), once);
}

#[test]
fn a_transcript_and_its_normal_form_parse_alike() {
    let raw = "Bot,  PLAY:  Dracula (by)  Tame -- Impala!";
    let normal: String = normalize_chars(&raw.chars().collect::<Vec<char>>()).iter().collect();
    assert_eq!(parser().parse_with_reason(raw), parser().parse_with_reason(&normal));
    let raw = "bot... hello?";
    let normal: String = normalize_chars(&raw.chars().collect::<Vec<char>>()).iter().collect();
    assert_eq!(parser().parse_with_reason(raw), parser().parse_with_reason(&normal));
}

#[test]
fn normal_forms_are_single_spaced_lowercase_words() {
    for raw in ["  Hey,   BOT!! play\tDracula", "\u{a0}ÉCOLE  --  Zürich\n", "", "  ,  "] {
        let n: String = normalize_chars(&raw.chars().collect::<Vec<char>>()).iter().collect();
        assert!(!n.starts_with(' ') && !n.ends_with(' ') && !n.contains("  "), "{n:?}");
        assert!(n.chars().all(|c| c == ' ' || (c.is_alphanumeric() && !c.is_ascii_uppercase())), "{n:?}");
    }
}

#[test]
fn the_request_splits_at_the_last_by() {
    let req = parser().parse("bot play stand by me by ben e king").unwrap();
    assert_eq!(req.query, "stand by me by ben e king");
    assert_eq!(req.title.as_deref(), Some("stand by me"));
    assert_eq!(req.artist.as_deref(), Some("ben e king"));
    let req = parser().parse("Bot, play: standby!").unwrap();
    assert_eq!((req.query.as_str(), req.title, req.artist), ("standby", None, None));
}
