//! What the player says and plays around a request: the acknowledgement tone, the
//! confirmation it posts, and where it posts it.
use vstd::prelude::*;
use vstd::string::StringExecFns;
use crate::text::{decimal, decimal_string};
use crate::wav::{encode_pcm16, interleave, interleaved, wav_file};

verus! {

/// Rate of the acknowledgement tone: the mixer runs at 48 kHz, so the tone needs no
/// resampling.
pub const BEEP_SAMPLE_RATE: u32 = 48_000;

/// Channels of the acknowledgement tone: the mixer is stereo.
pub const BEEP_CHANNELS: u16 = 2;

/// Length of the acknowledgement tone, in milliseconds.
pub const BEEP_DURATION_MS: u64 = 150;

/// The acknowledgement tone as an in-memory 16-bit PCM WAV: the mono `tone` played on
/// both channels at [`BEEP_SAMPLE_RATE`].
pub fn beep_wav_from_tone(tone: &[i16]) -> (r: Vec<u8>)
    requires
        tone.len() <= 0x1000_0000,
    ensures
        r@ == wav_file(BEEP_CHANNELS, BEEP_SAMPLE_RATE, interleaved(tone@, BEEP_CHANNELS as nat)),
{
    let samples = interleave(tone, BEEP_CHANNELS);
    proof {
        lemma_interleaved_len(tone@, 2);
    }
    encode_pcm16(BEEP_CHANNELS, BEEP_SAMPLE_RATE, samples.as_slice())
}

proof fn lemma_interleaved_len(mono: Seq<i16>, channels: nat)
    ensures
        interleaved(mono, channels).len() == mono.len() * channels,
    decreases mono.len(),
{
    if mono.len() > 0 {
        lemma_interleaved_len(mono.drop_last(), channels);
        assert(mono.len() * channels == (mono.len() - 1) * channels + channels) by (nonlinear_arith);
    }
}

/// How a result's popularity is described: "<n> views", or "unknown views".
pub open spec fn views_text(view_count: Option<u64>) -> Seq<char> {
    match view_count {
        Some(v) => decimal(v as nat) + " views"@,
        None => "unknown views"@,
    }
}

/// How a result's popularity is described.
pub fn views_label(view_count: Option<u64>) -> (r: String)
    ensures
        r@ == views_text(view_count),
{
    match view_count {
        Some(v) => {
            let mut r = decimal_string(v);
            r.append(" views");
            r
        },
        None => String::from_str("unknown views"),
    }
}

/// The confirmation posted when a song starts: "Now playing “<title>” by <channel>
/// (<views>)".
pub open spec fn now_playing_text(title: Seq<char>, channel: Seq<char>, views: Seq<char>) -> Seq<char> {
    "Now playing \u{201c}"@ + title + "\u{201d} by "@ + channel + " ("@ + views + ")"@
}

/// The confirmation posted when a song starts.
pub fn now_playing_summary(title: &str, channel: &str, views: &str) -> (r: String)
    ensures
        r@ == now_playing_text(title@, channel@, views@),
{
    let mut r = String::from_str("Now playing \u{201c}");
    r.append(title);
    r.append("\u{201d} by ");
    r.append(channel);
    r.append(" (");
    r.append(views);
    r.append(")");
    r
}

/// A channel of a guild, as far as choosing where to post matters.
#[derive(Debug, Clone, Copy, PartialEq, Eq, Structural)]
pub struct ChannelInfo {
    pub id: u64,
    /// Whether it is a text channel.
    pub is_text: bool,
}

/// The first text channel among the first `n` channels.
pub open spec fn first_text_channel(channels: Seq<ChannelInfo>, n: int) -> Option<u64>
    decreases n,
{
    if n <= 0 {
        None
    } else {
        match first_text_channel(channels, n - 1) {
            Some(id) => Some(id),
            None => if channels[n - 1].is_text { Some(channels[n - 1].id) } else { None },
        }
    }
}

/// The text channel used for feedback: the configured alert channel, else the guild's
/// system channel, else its first text channel. Without a configured channel, a guild
/// that is not known (`guild` is `None`) gives none. `guild` holds the system channel and
/// the guild's channels in the order they are listed.
pub open spec fn alert_channel_for(configured: Option<u64>, guild: Option<(Option<u64>, Seq<ChannelInfo>)>) -> Option<u64> {
    match configured {
        Some(id) => Some(id),
        None => match guild {
            None => None,
            Some((system, channels)) => match system {
                Some(id) => Some(id),
                None => first_text_channel(channels, channels.len() as int),
            },
        },
    }
}

/// Picks the text channel used for feedback.
pub fn resolve_alert_channel(configured: Option<u64>, system: Option<u64>, channels: &[ChannelInfo], guild_known: bool) -> (r: Option<u64>)
    ensures
        r == alert_channel_for(configured, if guild_known { Some((system, channels@)) } else { None }),
{
    if let Some(id) = configured {
        return Some(id);
    }
    if !guild_known {
        return None;
    }
    if let Some(id) = system {
        return Some(id);
    }
    let mut i: usize = 0;
    while i < channels.len()
        invariant
            i <= channels.len(),
            configured is None,
            system is None,
            guild_known,
            first_text_channel(channels@, i as int) is None,
        decreases channels.len() - i,
    {
        if channels[i].is_text {
            proof {
                assert(first_text_channel(channels@, i + 1) == Some(channels@[i as int].id));
                lemma_first_text_from(channels@, i as int + 1, channels.len() as int);
            }
            return Some(channels[i].id);
        }
        i = i + 1;
    }
    None
}

/// Once a text channel is found among the first `n`, looking further changes nothing.
proof fn lemma_first_text_from(channels: Seq<ChannelInfo>, n: int, m: int)
    requires
        0 <= n <= m <= channels.len(),
        first_text_channel(channels, n) is Some,
    ensures
        first_text_channel(channels, m) == first_text_channel(channels, n),
    decreases m - n,
{
    if m > n {
        lemma_first_text_from(channels, n, m - 1);
    }
}

} // verus!
