//! Runtime configuration, read from environment variables.
use vstd::prelude::*;
use vstd::string::StringExecFns;
use crate::parser::{lowered_words, WakeWords};
use crate::text::{
    int_parse_failure_text, IntParseFailure,
    chars_of, lemma_lower_idempotent, lower_seq, parse_u64, parse_u64_checked, parse_u64_failure, same_chars, split_chars,
    split_on, string_of, trim, trim_chars, views,
};

verus! {

/// Which speech-to-text engine transcribes speech.
#[derive(Debug, Clone, Copy, PartialEq, Eq, Structural)]
pub enum AsrEngine {
    /// The Handy app, which owns a Parakeet model and the GPU backend.
    Handy,
    /// The bundled whisper.cpp model.
    Whisper,
}

/// Why the configuration could not be built.
#[derive(Debug, Clone, PartialEq, Eq)]
pub enum ConfigError {
    /// `DISCORD_TOKEN` is not set.
    MissingDiscordToken,
    /// `VOICE_CHANNEL_ID` is not set.
    MissingVoiceChannelId,
    /// `VOICE_CHANNEL_ID` is not a `u64`; holds why it was rejected.
    InvalidVoiceChannelId(IntParseFailure),
    /// `ASR_ENGINE` names no known engine; holds the trimmed, lowercased name.
    UnknownAsrEngine(String),
    /// `ALERT_CHANNEL_ID` is not a `u64`; holds why it was rejected.
    InvalidAlertChannelId(IntParseFailure),
}

/// The text of a [`ConfigError`].
pub enum ConfigErrorView {
    MissingDiscordToken,
    MissingVoiceChannelId,
    InvalidVoiceChannelId(IntParseFailure),
    UnknownAsrEngine(Seq<char>),
    InvalidAlertChannelId(IntParseFailure),
}

impl View for ConfigError {
    type V = ConfigErrorView;

    open spec fn view(&self) -> ConfigErrorView {
        match self {
            ConfigError::MissingDiscordToken => ConfigErrorView::MissingDiscordToken,
            ConfigError::MissingVoiceChannelId => ConfigErrorView::MissingVoiceChannelId,
            ConfigError::InvalidVoiceChannelId(f) => ConfigErrorView::InvalidVoiceChannelId(*f),
            ConfigError::UnknownAsrEngine(v) => ConfigErrorView::UnknownAsrEngine(v@),
            ConfigError::InvalidAlertChannelId(f) => ConfigErrorView::InvalidAlertChannelId(*f),
        }
    }
}

/// The engine name an `ASR_ENGINE` value stands for: the value trimmed and lowercased.
pub open spec fn engine_key(value: Seq<char>) -> Seq<char> {
    lower_seq(trim(value))
}

/// The engine an `ASR_ENGINE` value selects, case-insensitively and ignoring surrounding
/// whitespace: "handy" or "parakeet" for Handy, "whisper" for Whisper.
pub open spec fn asr_engine_for(value: Seq<char>) -> Option<AsrEngine> {
    let key = engine_key(value);
    if key == "handy"@ || key == "parakeet"@ {
        Some(AsrEngine::Handy)
    } else if key == "whisper"@ {
        Some(AsrEngine::Whisper)
    } else {
        None
    }
}

impl AsrEngine {
    /// Reads an `ASR_ENGINE` value.
    pub fn parse(value: &str) -> (r: Result<AsrEngine, ConfigError>)
        ensures
            match asr_engine_for(value@) {
                Some(e) => r == Ok::<AsrEngine, ConfigError>(e),
                None => r matches Err(ConfigError::UnknownAsrEngine(k)) && k@ == engine_key(value@),
            },
    {
        let key = lower_chars_of_trimmed(value);
        let handy = chars_of("handy");
        let parakeet = chars_of("parakeet");
        let whisper = chars_of("whisper");
        if same_chars(key.as_slice(), handy.as_slice()) || same_chars(key.as_slice(), parakeet.as_slice()) {
            Ok(AsrEngine::Handy)
        } else if same_chars(key.as_slice(), whisper.as_slice()) {
            Ok(AsrEngine::Whisper)
        } else {
            Err(ConfigError::UnknownAsrEngine(string_of(&key)))
        }
    }
}

/// The trimmed, ASCII-lowercased chars of `value`.
fn lower_chars_of_trimmed(value: &str) -> (r: Vec<char>)
    ensures
        r@ == engine_key(value@),
{
    let cs = chars_of(value);
    let t = trim_chars(cs.as_slice());
    crate::text::lower_chars(t.as_slice())
}

impl ConfigError {
    /// The message the bot reports: the standard library's own wording for a variable
    /// that is not set and for a number that does not parse.
    pub fn message(&self) -> (r: String)
        ensures
            r@ == match self@ {
                ConfigErrorView::MissingDiscordToken => "environment variable not found"@,
                ConfigErrorView::MissingVoiceChannelId => "environment variable not found"@,
                ConfigErrorView::InvalidVoiceChannelId(f) => int_parse_failure_text(f),
                ConfigErrorView::UnknownAsrEngine(k) => "unknown ASR_ENGINE '"@ + k + "'; use 'handy' or 'whisper'"@,
                ConfigErrorView::InvalidAlertChannelId(f) => int_parse_failure_text(f),
            },
    {
        match self {
            ConfigError::MissingDiscordToken => String::from_str("environment variable not found"),
            ConfigError::MissingVoiceChannelId => String::from_str("environment variable not found"),
            ConfigError::InvalidVoiceChannelId(f) => String::from_str(f.message()),
            ConfigError::UnknownAsrEngine(k) => {
                let mut m = String::from_str("unknown ASR_ENGINE '");
                m.append(k.as_str());
                m.append("'; use 'handy' or 'whisper'");
                m
            },
            ConfigError::InvalidAlertChannelId(f) => String::from_str(f.message()),
        }
    }
}

/// The words of a comma-separated list: each piece trimmed and ASCII-lowercased, empty
/// pieces dropped.
pub open spec fn csv_words(value: Seq<char>) -> Seq<Seq<char>> {
    split_on(value, ',').map_values(|w: Seq<char>| lower_seq(trim(w))).filter(|w: Seq<char>| w.len() > 0)
}

/// Splits a comma-separated list into its trimmed, lowercased, non-empty words.
pub fn split_csv(value: &str) -> (r: Vec<String>)
    ensures
        r@.map_values(|w: String| w@) == csv_words(value@),
{
    let cs = chars_of(value);
    let pieces = split_chars(cs.as_slice(), ',');
    let ghost lowered = views(pieces@).map_values(|w: Seq<char>| lower_seq(trim(w)));
    let mut r: Vec<String> = Vec::new();
    assert(lowered.take(0).filter(|w: Seq<char>| w.len() > 0) =~= Seq::<Seq<char>>::empty()) by {
        reveal_with_fuel(Seq::filter, 1);
    }
    for i in 0..pieces.len()
        invariant
            lowered == views(pieces@).map_values(|w: Seq<char>| lower_seq(trim(w))),
            lowered.len() == pieces.len(),
            r@.map_values(|w: String| w@) == lowered.take(i as int).filter(|w: Seq<char>| w.len() > 0),
    {
        let t = trim_chars(pieces[i].as_slice());
        let w = crate::text::lower_chars(t.as_slice());
        assert(w@ == lowered[i as int]);
        proof {
            reveal_with_fuel(Seq::filter, 1);
            assert(lowered.take(i + 1).drop_last() =~= lowered.take(i as int));
        }
        if w.len() > 0 {
            let s = string_of(&w);
            let ghost prev = r@;
            r.push(s);
            assert(r@.map_values(|w: String| w@) =~= prev.map_values(|w: String| w@).push(w@));
        }
    }
    assert(lowered.take(pieces.len() as int) =~= lowered);
    r
}

/// The wake words used when `WAKE_WORDS` is unset.
///
/// "play" is included because the parser lets it stand in for the wake word, which
/// makes the bare "play <query>" the shortest thing worth speaking.
///
/// "ut" and "ot" are there because speech-to-text often drops the leading consonant of a
/// short wake word, turning "bot" into "ut" or "ot". Matching only "bot" left the bot deaf
/// to the word people actually shout at it.
pub open spec fn default_wake_words() -> Seq<Seq<char>> {
    seq!["bot"@, "play"@, "ut"@, "ot"@]
}

/// The default wake words, in order.
pub fn default_wake_word_list() -> (r: Vec<String>)
    ensures
        r@.map_values(|w: String| w@) == default_wake_words(),
{
    let r = vec![
        String::from_str("bot"),
        String::from_str("play"),
        String::from_str("ut"),
        String::from_str("ot"),
    ];
    assert(r@.map_values(|w: String| w@) =~= default_wake_words());
    r
}

} // verus!

verus! {

/// The Whisper model used when `WHISPER_MODEL` is unset.
pub const DEFAULT_WHISPER_MODEL: &'static str = "data/model.bin";

/// The environment variables the configuration is read from, each `None` when unset.
pub struct EnvVars {
    pub discord_token: Option<String>,
    pub voice_channel_id: Option<String>,
    pub asr_engine: Option<String>,
    pub whisper_model: Option<String>,
    pub parakeet_model: Option<String>,
    pub alert_channel_id: Option<String>,
    pub wake_words: Option<String>,
}

/// Runtime configuration loaded from environment variables.
#[derive(Debug, Clone)]
pub struct Config {
    pub discord_token: String,
    pub voice_channel_id: u64,
    pub asr_engine: AsrEngine,
    pub whisper_model: String,
    pub parakeet_model: String,
    pub wake_words: WakeWords,
    pub alert_channel_id: Option<u64>,
}

/// The first problem with the variables, checked in the order `DISCORD_TOKEN`,
/// `VOICE_CHANNEL_ID`, `ASR_ENGINE`, `ALERT_CHANNEL_ID`; `None` when there is none.
pub open spec fn config_problem(v: &EnvVars) -> Option<ConfigErrorView> {
    if v.discord_token is None {
        Some(ConfigErrorView::MissingDiscordToken)
    } else if v.voice_channel_id is None {
        Some(ConfigErrorView::MissingVoiceChannelId)
    } else if parse_u64(v.voice_channel_id->0@) is None {
        Some(ConfigErrorView::InvalidVoiceChannelId(parse_u64_failure(v.voice_channel_id->0@)->0))
    } else if v.asr_engine is Some && asr_engine_for(v.asr_engine->0@) is None {
        Some(ConfigErrorView::UnknownAsrEngine(engine_key(v.asr_engine->0@)))
    } else if v.alert_channel_id is Some && parse_u64(v.alert_channel_id->0@) is None {
        Some(ConfigErrorView::InvalidAlertChannelId(parse_u64_failure(v.alert_channel_id->0@)->0))
    } else {
        None
    }
}

/// The wake words configured by `WAKE_WORDS`, or the defaults when it is unset.
pub open spec fn configured_wake_words(v: &EnvVars) -> Set<Seq<char>> {
    match v.wake_words {
        Some(w) => csv_words(w@).to_set(),
        None => default_wake_words().to_set(),
    }
}

impl Config {
    /// Builds the configuration from the variables' values.
    ///
    /// `DISCORD_TOKEN` and `VOICE_CHANNEL_ID` are required; `ASR_ENGINE` defaults to
    /// Handy, `WHISPER_MODEL` to "data/model.bin", `PARAKEET_MODEL` to the Handy default
    /// model, and `WAKE_WORDS` (comma-separated) to "bot", "play", "ut" and "ot".
    pub fn from_vars(v: EnvVars) -> (r: Result<Config, ConfigError>)
        ensures
            r is Ok <==> config_problem(&v) is None,
            r matches Err(e) ==> config_problem(&v) == Some(e@),
            r matches Ok(c) ==> {
                &&& v.discord_token == Some(c.discord_token)
                &&& parse_u64(v.voice_channel_id->0@) == Some(c.voice_channel_id)
                &&& c.asr_engine == match v.asr_engine {
                    Some(e) => asr_engine_for(e@)->0,
                    None => AsrEngine::Handy,
                }
                &&& c.whisper_model@ == match v.whisper_model {
                    Some(m) => m@,
                    None => DEFAULT_WHISPER_MODEL@,
                }
                &&& c.parakeet_model@ == match v.parakeet_model {
                    Some(m) => m@,
                    None => crate::parakeet::DEFAULT_MODEL@,
                }
                &&& c.alert_channel_id == match v.alert_channel_id {
                    Some(a) => Some(parse_u64(a@)->0),
                    None => None,
                }
                &&& c.wake_words@ == configured_wake_words(&v)
            },
    {
        let EnvVars {
            discord_token,
            voice_channel_id,
            asr_engine,
            whisper_model,
            parakeet_model,
            alert_channel_id,
            wake_words,
        } = v;
        let discord_token = match discord_token {
            Some(t) => t,
            None => return Err(ConfigError::MissingDiscordToken),
        };
        let voice_text = match voice_channel_id {
            Some(t) => t,
            None => return Err(ConfigError::MissingVoiceChannelId),
        };
        let voice_channel_id = match parse_u64_checked(chars_of(voice_text.as_str()).as_slice()) {
            Ok(id) => id,
            Err(f) => return Err(ConfigError::InvalidVoiceChannelId(f)),
        };
        let asr_engine = match &asr_engine {
            Some(e) => AsrEngine::parse(e.as_str())?,
            None => AsrEngine::Handy,
        };
        let whisper_model = match whisper_model {
            Some(m) => m,
            None => String::from_str(DEFAULT_WHISPER_MODEL),
        };
        let parakeet_model = match parakeet_model {
            Some(m) => m,
            None => String::from_str(crate::parakeet::DEFAULT_MODEL),
        };
        let alert_channel_id = match alert_channel_id {
            Some(a) => match parse_u64_checked(chars_of(a.as_str()).as_slice()) {
                Ok(id) => Some(id),
                Err(f) => return Err(ConfigError::InvalidAlertChannelId(f)),
            },
            None => None,
        };
        let words = match &wake_words {
            Some(w) => split_csv(w.as_str()),
            None => default_wake_word_list(),
        };
        let wake_words_set = WakeWords::new(words);
        proof {
            let ws = words@.map_values(|w: String| w@);
            assert forall|i: int| 0 <= i < ws.len() implies lowered_words(words@)[i] == ws[i] by {
                match wake_words {
                    Some(w) => {
                        assert(ws[i] == csv_words(w@)[i]);
                        assert(csv_words(w@).contains(ws[i]));
                        lemma_csv_words_lowercase(w@, i);
                    },
                    None => {
                        reveal_strlit("bot");
                        reveal_strlit("play");
                        reveal_strlit("ut");
                        reveal_strlit("ot");
                        assert(lower_seq("bot"@) =~= "bot"@);
                        assert(lower_seq("play"@) =~= "play"@);
                        assert(lower_seq("ut"@) =~= "ut"@);
                        assert(lower_seq("ot"@) =~= "ot"@);
                    },
                }
            }
            assert(lowered_words(words@) =~= ws);
        }
        Ok(Config {
            discord_token,
            voice_channel_id,
            asr_engine,
            whisper_model,
            parakeet_model,
            wake_words: wake_words_set,
            alert_channel_id,
        })
    }
}

/// Every element kept by a filter comes from the filtered sequence.
proof fn lemma_filter_subset(s: Seq<Seq<char>>, pred: spec_fn(Seq<char>) -> bool, i: int)
    requires
        0 <= i < s.filter(pred).len(),
    ensures
        s.contains(s.filter(pred)[i]),
    decreases s.len(),
{
    reveal_with_fuel(Seq::filter, 1);
    if s.len() > 0 {
        let sub = s.drop_last().filter(pred);
        if i < sub.len() {
            lemma_filter_subset(s.drop_last(), pred, i);
            let k = choose|k: int| 0 <= k < s.drop_last().len() && s.drop_last()[k] == sub[i];
            assert(s[k] == s.filter(pred)[i]);
        } else {
            assert(s[s.len() - 1] == s.filter(pred)[i]);
        }
    }
}

/// Every word of a comma-separated list is already lowercase.
proof fn lemma_csv_words_lowercase(value: Seq<char>, i: int)
    requires
        0 <= i < csv_words(value).len(),
    ensures
        lower_seq(csv_words(value)[i]) == csv_words(value)[i],
{
    let lowered = split_on(value, ',').map_values(|w: Seq<char>| lower_seq(trim(w)));
    let pred = |w: Seq<char>| w.len() > 0;
    lemma_filter_subset(lowered, pred, i);
    let x = csv_words(value)[i];
    assert(lowered.contains(x));
    let k = choose|k: int| 0 <= k < lowered.len() && lowered[k] == x;
    lemma_lower_idempotent(trim(split_on(value, ',')[k]));
}

} // verus!
