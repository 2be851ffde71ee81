//! How the segments a Whisper model decodes become one transcript.
use vstd::prelude::*;
use crate::text::{chars_of, string_of, trim, trim_chars};

verus! {

/// The segments, each followed by a space.
pub open spec fn spaced(segments: Seq<Seq<char>>) -> Seq<char>
    decreases segments.len(),
{
    if segments.len() == 0 {
        Seq::<char>::empty()
    } else {
        spaced(segments.drop_last()) + segments.last() + seq![' ']
    }
}

/// The transcript of decoded segments: the segments separated by spaces, with
/// whitespace trimmed from both ends.
pub fn transcript_of_segments(segments: &Vec<String>) -> (r: String)
    ensures
        r@ == trim(spaced(segments@.map_values(|s: String| s@))),
{
    let ghost segs = segments@.map_values(|s: String| s@);
    let mut text: Vec<char> = Vec::new();
    for i in 0..segments.len()
        invariant
            segs == segments@.map_values(|s: String| s@),
            text@ == spaced(segs.take(i as int)),
    {
        let seg = chars_of(segments[i].as_str());
        assert(seg@ == segs[i as int]);
        let ghost base = text@;
        let mut k: usize = 0;
        while k < seg.len()
            invariant
                k <= seg.len(),
                text@ == base + seg@.take(k as int),
            decreases seg.len() - k,
        {
            text.push(seg[k]);
            assert(seg@.take(k + 1) =~= seg@.take(k as int).push(seg@[k as int]));
            k = k + 1;
        }
        text.push(' ');
        assert(seg@.take(seg.len() as int) =~= seg@);
        assert(segs.take(i + 1).drop_last() =~= segs.take(i as int));
        assert(text@ =~= spaced(segs.take(i + 1)));
    }
    assert(segs.take(segments.len() as int) =~= segs);
    let t = trim_chars(text.as_slice());
    string_of(&t)
}

} // verus!
