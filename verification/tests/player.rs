use shamash::player::{
    beep_wav_from_tone, now_playing_summary, resolve_alert_channel, views_label, ChannelInfo,
    BEEP_CHANNELS, BEEP_DURATION_MS, BEEP_SAMPLE_RATE,
};
use std::time::Duration;

const BEEP_FREQUENCY: f32 = 880.0;

/// The acknowledgement tone: a faded 880 Hz sine, 150 ms at 48 kHz.
fn beep_wav() -> Vec<u8> {
    let duration = Duration::from_millis(BEEP_DURATION_MS);
    let frames = (BEEP_SAMPLE_RATE as f32 * duration.as_secs_f32()).round() as usize;
    let fade_frames = (BEEP_SAMPLE_RATE / 200) as f32;
    let step = 2.0 * std::f32::consts::PI * BEEP_FREQUENCY / BEEP_SAMPLE_RATE as f32;
    let tone: Vec<i16> = (0..frames)
        .map(|frame| {
            let envelope = (frame as f32 / fade_frames)
                .min((frames - 1 - frame) as f32 / fade_frames)
                .clamp(0.0, 1.0);
            let tone = (step * frame as f32).sin() * i16::MAX as f32;
            (envelope * 0.3 * tone) as i16
        })
        .collect();
    beep_wav_from_tone(&tone)
}

fn u32_at(wav: &[u8], offset: usize) -> u32 {
    wav[offset..offset + 4].try_into().map(u32::from_le_bytes).unwrap()
}

fn u16_at(wav: &[u8], offset: usize) -> u16 {
    wav[offset..offset + 2].try_into().map(u16::from_le_bytes).unwrap()
}

fn samples(wav: &[u8]) -> Vec<i16> {
    wav[44..]
        .chunks_exact(2)
        .map(|c| i16::from_le_bytes([c[0], c[1]]))
        .collect()
}

#[test]
fn beep_is_a_playable_wav_header() {
    let wav = beep_wav();
    assert_eq!(&wav[0..4], b"RIFF");
    assert_eq!(&wav[8..12], b"WAVE");
    assert_eq!(&wav[12..16], b"fmt ");
    assert_eq!(u32_at(&wav, 16), 16, "PCM fmt chunk size");
    assert_eq!(u16_at(&wav, 20), 1, "uncompressed PCM");
    assert_eq!(u16_at(&wav, 22), BEEP_CHANNELS);
    assert_eq!(u32_at(&wav, 24), BEEP_SAMPLE_RATE);
    assert_eq!(u16_at(&wav, 34), 16, "bits per sample");
    assert_eq!(&wav[36..40], b"data");
    let data_len = u32_at(&wav, 40) as usize;
    assert_eq!(wav.len(), 44 + data_len, "declared data length");
    assert_eq!(u32_at(&wav, 4) as usize, 36 + data_len, "RIFF length");
}

#[test]
fn beep_holds_audible_tone_for_the_requested_duration() {
    let wav = beep_wav();
    let samples = samples(&wav);
    let frames = samples.len() / BEEP_CHANNELS as usize;
    let expected =
        (BEEP_SAMPLE_RATE as f32 * Duration::from_millis(BEEP_DURATION_MS).as_secs_f32()) as usize;
    assert!(
        (frames as i32 - expected as i32).abs() <= 1,
        "{frames} frames"
    );

    let peak = samples.iter().map(|s| s.unsigned_abs()).max().unwrap();
    assert!(peak > i16::MAX as u16 / 5, "tone is too quiet: peak {peak}");

    let left = samples.iter().step_by(2);
    let right = samples.iter().skip(1).step_by(2);
    assert!(
        left.eq(right),
        "both channels carry the same tone, so it plays centred"
    );
}

#[test]
fn beep_fades_in_and_out_instead_of_clicking() {
    let wav = beep_wav();
    let samples = samples(&wav);
    let peak = samples.iter().map(|s| s.unsigned_abs()).max().unwrap();
    let first = samples[0].unsigned_abs();
    let last = samples[samples.len() - 2].unsigned_abs();
    assert!(first < peak / 4, "starts at {first}, peak {peak}");
    assert!(last < peak / 4, "ends at {last}, peak {peak}");
}

#[test]
fn beep_byte_rate_and_block_align_match_stereo_16_bit() {
    let wav = beep_wav_from_tone(&[1, -2]);
    assert_eq!(u32_at(&wav, 28), 48_000 * 4);
    assert_eq!(u16_at(&wav, 32), 4);
    assert_eq!(samples(&wav), vec![1, 1, -2, -2]);
}

#[test]
fn confirmation_names_title_channel_and_views() {
    assert_eq!(views_label(Some(1234)), "1234 views");
    assert_eq!(views_label(Some(0)), "0 views");
    assert_eq!(views_label(None), "unknown views");
    assert_eq!(
        now_playing_summary("Dracula", "Tame Impala", "5 views"),
        "Now playing \u{201c}Dracula\u{201d} by Tame Impala (5 views)"
    );
}

#[test]
fn alert_channel_preference_order() {
    let channels = [
        ChannelInfo { id: 1, is_text: false },
        ChannelInfo { id: 2, is_text: true },
        ChannelInfo { id: 3, is_text: true },
    ];
    assert_eq!(resolve_alert_channel(Some(9), Some(8), &channels, true), Some(9));
    assert_eq!(resolve_alert_channel(Some(9), None, &[], false), Some(9));
    assert_eq!(resolve_alert_channel(None, Some(8), &channels, true), Some(8));
    assert_eq!(resolve_alert_channel(None, None, &channels, true), Some(2));
    assert_eq!(resolve_alert_channel(None, None, &channels[..1], true), None);
    assert_eq!(resolve_alert_channel(None, Some(8), &channels, false), None);
}
