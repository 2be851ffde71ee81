//! The shape of the audio the listener consumes and how its voice gate is tuned.
use vstd::prelude::*;
use crate::audio::VadState;

verus! {

/// Sample rate (Hz) of the mono audio stream the listener consumes.
pub const LISTEN_SAMPLE_RATE: u32 = 16_000;

/// Samples per 20 ms frame at [`LISTEN_SAMPLE_RATE`].
pub const FRAME_SAMPLES: usize = 320;

/// Silence frames that end an utterance: 15 x 20 ms = 300 ms.
pub const VAD_GAP_FRAMES: usize = 15;

/// Hard cap on one utterance: 600 x 20 ms = 12 s.
pub const VAD_MAX_FRAMES: usize = 600;

/// The voice gate of a listener: 20 ms frames, a 300 ms gap, a 12 s cap.
pub fn listener_gate() -> (r: VadState)
    ensures
        r.well_formed(),
        r.frame_len() == FRAME_SAMPLES,
        r.gap() == VAD_GAP_FRAMES,
        r.max() == VAD_MAX_FRAMES,
        r.buffered() == 0,
{
    VadState::new(FRAME_SAMPLES, VAD_GAP_FRAMES, VAD_MAX_FRAMES)
}

} // verus!
