//! What the speech-to-music pipeline does with a transcript before it asks the parser.
use vstd::prelude::*;
use crate::text::{chars_of, trim, trim_chars};

verus! {

/// How a transcript is treated.
#[derive(Debug, Clone, Copy, PartialEq, Eq, Structural)]
pub enum Heard {
    /// Nothing intelligible was heard: the utterance is counted, not reported.
    Blank,
    /// Words were heard; `skipped` unintelligible utterances came before them.
    Words { skipped: usize },
}

/// Triages a transcript, with `muted` the unintelligible utterances not yet reported.
/// Background noise trips the voice detector often enough that reporting every empty
/// transcript would drown out real commands, so they are counted (wrapping on overflow,
/// as an atomic counter does) and reported with the next real words. Returns the
/// verdict and the new count.
pub fn triage(transcript: &str, muted: usize) -> (r: (Heard, usize))
    ensures
        trim(transcript@).len() == 0 ==> r == (Heard::Blank, muted.wrapping_add(1)),
        trim(transcript@).len() > 0 ==> r == (Heard::Words { skipped: muted }, 0usize),
{
    let t = trim_chars(chars_of(transcript).as_slice());
    if t.len() == 0 {
        (Heard::Blank, muted.wrapping_add(1))
    } else {
        (Heard::Words { skipped: muted }, 0)
    }
}

} // verus!
