use shamash::config::{
    default_wake_word_list, split_csv, AsrEngine, Config, ConfigError, EnvVars,
    DEFAULT_WHISPER_MODEL,
};
use shamash::parakeet::DEFAULT_MODEL;
use shamash::text::{chars_of, parse_u64_checked, IntParseFailure};

#[test]
fn parses_csv_wake_words() {
    let words = split_csv("Shamash, BOT,  ,tveir");
    assert_eq!(words, vec!["shamash", "bot", "tveir"]);
}

#[test]
fn empty_csv_yields_no_wake_words() {
    assert!(split_csv(" , , ").is_empty());
}

#[test]
fn asr_engine_names_are_case_insensitive() {
    assert_eq!(AsrEngine::parse("Handy").unwrap(), AsrEngine::Handy);
    assert_eq!(AsrEngine::parse(" parakeet ").unwrap(), AsrEngine::Handy);
    assert_eq!(AsrEngine::parse("WHISPER").unwrap(), AsrEngine::Whisper);
}

#[test]
fn an_unknown_asr_engine_is_rejected_by_name() {
    let err = AsrEngine::parse("deepspeech").unwrap_err().message();
    assert!(err.contains("deepspeech"), "unhelpful error: {err}");
}

fn vars(token: Option<&str>, voice: Option<&str>) -> EnvVars {
    EnvVars {
        discord_token: token.map(str::to_string),
        voice_channel_id: voice.map(str::to_string),
        asr_engine: None,
        whisper_model: None,
        parakeet_model: None,
        alert_channel_id: None,
        wake_words: None,
    }
}

#[test]
fn defaults_fill_in_unset_variables() {
    let config = Config::from_vars(vars(Some("token"), Some("1234"))).unwrap();
    assert_eq!(config.discord_token, "token");
    assert_eq!(config.voice_channel_id, 1234);
    assert_eq!(config.asr_engine, AsrEngine::Handy);
    assert_eq!(config.whisper_model, DEFAULT_WHISPER_MODEL);
    assert_eq!(config.whisper_model, "data/model.bin");
    assert_eq!(config.parakeet_model, DEFAULT_MODEL);
    assert_eq!(config.alert_channel_id, None);
    for word in ["bot", "play", "ut", "ot"] {
        assert!(config.wake_words.contains(word));
    }
    assert_eq!(config.wake_words.as_slice().len(), 4);
    assert_eq!(default_wake_word_list(), vec!["bot", "play", "ut", "ot"]);
}

#[test]
fn configured_values_are_used() {
    let mut v = vars(Some("t"), Some("+42"));
    v.asr_engine = Some("Whisper".to_string());
    v.whisper_model = Some("m.bin".to_string());
    v.parakeet_model = Some("p.gguf".to_string());
    v.alert_channel_id = Some("7".to_string());
    v.wake_words = Some("Shamash, bot".to_string());
    let config = Config::from_vars(v).unwrap();
    assert_eq!(config.voice_channel_id, 42);
    assert_eq!(config.asr_engine, AsrEngine::Whisper);
    assert_eq!(config.whisper_model, "m.bin");
    assert_eq!(config.parakeet_model, "p.gguf");
    assert_eq!(config.alert_channel_id, Some(7));
    assert!(config.wake_words.contains("shamash"));
    assert!(config.wake_words.contains("bot"));
    assert!(!config.wake_words.contains("play"));
}

#[test]
fn each_configuration_error_is_reported() {
    assert_eq!(
        Config::from_vars(vars(None, Some("1"))).unwrap_err(),
        ConfigError::MissingDiscordToken
    );
    assert_eq!(
        Config::from_vars(vars(Some("t"), None)).unwrap_err(),
        ConfigError::MissingVoiceChannelId
    );
    assert_eq!(
        Config::from_vars(vars(Some("t"), Some("12a"))).unwrap_err(),
        ConfigError::InvalidVoiceChannelId(IntParseFailure::InvalidDigit)
    );
    assert_eq!(
        Config::from_vars(vars(Some("t"), Some("18446744073709551616"))).unwrap_err(),
        ConfigError::InvalidVoiceChannelId(IntParseFailure::PosOverflow)
    );
    let mut v = vars(Some("t"), Some("1"));
    v.asr_engine = Some(" DeepSpeech ".to_string());
    let err = Config::from_vars(v).unwrap_err();
    assert_eq!(err, ConfigError::UnknownAsrEngine("deepspeech".to_string()));
    assert_eq!(err.message(), "unknown ASR_ENGINE 'deepspeech'; use 'handy' or 'whisper'");
    let mut v = vars(Some("t"), Some("1"));
    v.alert_channel_id = Some("-3".to_string());
    assert_eq!(
        Config::from_vars(v).unwrap_err(),
        ConfigError::InvalidAlertChannelId(IntParseFailure::InvalidDigit)
    );
    let mut v = vars(Some("t"), Some("1"));
    v.alert_channel_id = Some(String::new());
    assert_eq!(
        Config::from_vars(v).unwrap_err(),
        ConfigError::InvalidAlertChannelId(IntParseFailure::Empty)
    );
}

#[test]
fn configuration_errors_read_as_the_standard_library_words_them() {
    let missing = "environment variable not found";
    assert_eq!(ConfigError::MissingDiscordToken.message(), missing);
    assert_eq!(ConfigError::MissingVoiceChannelId.message(), missing);
    for (text, failure) in [
        ("", IntParseFailure::Empty),
        ("+", IntParseFailure::InvalidDigit),
        ("-1", IntParseFailure::InvalidDigit),
        ("12a", IntParseFailure::InvalidDigit),
        ("18446744073709551616", IntParseFailure::PosOverflow),
        ("99999999999999999999x", IntParseFailure::PosOverflow),
    ] {
        let std_error = text.parse::<u64>().unwrap_err().to_string();
        assert_eq!(ConfigError::InvalidVoiceChannelId(failure).message(), std_error, "{text:?}");
        assert_eq!(ConfigError::InvalidAlertChannelId(failure).message(), std_error, "{text:?}");
        assert_eq!(parse_u64_checked(&chars_of(text)), Err(failure), "{text:?}");
    }
}

#[test]
fn the_largest_channel_id_is_accepted() {
    let config = Config::from_vars(vars(Some("t"), Some("18446744073709551615"))).unwrap();
    assert_eq!(config.voice_channel_id, u64::MAX);
}
