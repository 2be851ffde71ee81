//! The integer side of the audio front end: how a stream is re-sampled, and when the
//! voice-activity gate cuts an utterance.
use vstd::prelude::*;

verus! {

/// Re-samples audio between two rates for the recogniser's 16 kHz front end.
#[derive(Debug, Clone, Copy)]
pub struct Resampler {
    input_rate: u32,
    output_rate: u32,
}

/// How a [`Resampler`] turns its input into output.
#[derive(Debug, Clone, Copy, PartialEq, Eq, Structural)]
pub enum ResampleMethod {
    /// Equal rates: the input is returned as it is.
    PassThrough,
    /// The input rate is a multiple of the output rate: every run of `factor` input
    /// samples is averaged into one output sample (a box filter that also acts as a cheap
    /// anti-aliasing low-pass); a trailing partial run is dropped.
    Average { factor: u32 },
    /// Any other ratio: linear interpolation between neighbouring samples.
    Linear,
}

/// The method for a pair of rates. As `u32::is_multiple_of` decides it, a rate is a
/// multiple of 0 only when it is 0 itself.
pub open spec fn method_for(input_rate: u32, output_rate: u32) -> ResampleMethod {
    if input_rate == output_rate {
        ResampleMethod::PassThrough
    } else if output_rate != 0 && input_rate % output_rate == 0 {
        ResampleMethod::Average { factor: input_rate / output_rate }
    } else {
        ResampleMethod::Linear
    }
}

impl Resampler {
    /// A resampler from `input_rate` Hz to `output_rate` Hz.
    pub fn new(input_rate: u32, output_rate: u32) -> (r: Resampler)
        ensures
            r.input_rate() == input_rate,
            r.output_rate() == output_rate,
    {
        Resampler { input_rate, output_rate }
    }

    /// The input rate, in Hz.
    pub closed spec fn input_rate(&self) -> u32 {
        self.input_rate
    }

    /// The output rate, in Hz.
    pub closed spec fn output_rate(&self) -> u32 {
        self.output_rate
    }

    /// The rate of the input stream, in Hz.
    pub fn input_rate_hz(&self) -> (r: u32)
        ensures
            r == self.input_rate(),
    {
        self.input_rate
    }

    /// The rate of the output stream, in Hz.
    pub fn output_rate_hz(&self) -> (r: u32)
        ensures
            r == self.output_rate(),
    {
        self.output_rate
    }

    /// How this resampler turns input into output.
    pub fn method(&self) -> (r: ResampleMethod)
        ensures
            r == method_for(self.input_rate(), self.output_rate()),
    {
        if self.input_rate == self.output_rate {
            ResampleMethod::PassThrough
        } else if self.output_rate != 0 && self.input_rate % self.output_rate == 0 {
            ResampleMethod::Average { factor: self.input_rate / self.output_rate }
        } else {
            ResampleMethod::Linear
        }
    }
}

/// What the voice-activity gate does with one frame.
#[derive(Debug, Clone, Copy, PartialEq, Eq, Structural)]
pub enum VadAction {
    /// The frame is dropped and nothing is emitted.
    Discard,
    /// The frame is appended to the utterance being collected.
    Append,
    /// The frame is appended, and the utterance, now `frames` frames long, is emitted.
    AppendAndFlush { frames: usize },
    /// The frame is dropped, and the utterance collected so far, `frames` frames long,
    /// is emitted.
    Flush { frames: usize },
}

/// Voice-activity detection over frames already judged loud or quiet: collects loud
/// frames into an utterance and emits it after a run of quiet frames, or when it reaches
/// its maximum length.
#[derive(Debug, Clone)]
pub struct VadState {
    frame_samples: usize,
    gap_frames: usize,
    max_frames: usize,
    buffered_frames: usize,
    silent_streak: usize,
}

impl VadState {
    /// Frames per utterance collected so far.
    pub closed spec fn buffered(&self) -> nat {
        self.buffered_frames as nat
    }

    /// Quiet frames since the last loud one, inside an utterance.
    pub closed spec fn silent_streak(&self) -> nat {
        self.silent_streak as nat
    }

    /// Quiet frames that end an utterance.
    pub closed spec fn gap(&self) -> nat {
        self.gap_frames as nat
    }

    /// Frames at which an utterance is emitted regardless.
    pub closed spec fn max(&self) -> nat {
        self.max_frames as nat
    }

    /// Samples in one frame.
    pub closed spec fn frame_len(&self) -> nat {
        self.frame_samples as nat
    }

    /// An utterance is being collected.
    pub open spec fn in_utterance(&self) -> bool {
        self.buffered() > 0
    }

    /// The counters stay within their bounds: an utterance never holds `max` frames
    /// (it would have been emitted), a silent streak never reaches `gap`, and there is
    /// no streak outside an utterance.
    pub closed spec fn well_formed(&self) -> bool {
        &&& (self.buffered_frames == 0 || self.buffered_frames < self.max_frames)
        &&& (self.silent_streak == 0 || self.silent_streak < self.gap_frames)
        &&& (self.buffered_frames == 0 ==> self.silent_streak == 0)
    }

    /// `frame_samples` is the size of one frame (e.g. 20 ms at the pipelined sample
    /// rate). `gap_frames` quiet frames end an utterance. `max_frames` forces a flush to
    /// bound utterance length.
    pub fn new(frame_samples: usize, gap_frames: usize, max_frames: usize) -> (r: VadState)
        ensures
            r.well_formed(),
            r.frame_len() == frame_samples,
            r.gap() == gap_frames,
            r.max() == max_frames,
            r.buffered() == 0,
            r.silent_streak() == 0,
    {
        VadState { frame_samples, gap_frames, max_frames, buffered_frames: 0, silent_streak: 0 }
    }

    /// Samples in one frame.
    pub fn frame_samples(&self) -> (r: usize)
        ensures
            r == self.frame_len(),
    {
        self.frame_samples
    }

    /// Feeds one frame, judged loud (at or above the level threshold) or quiet.
    ///
    /// A loud frame joins the utterance, ends any silent streak, and emits the utterance
    /// once it holds `max` frames. A quiet frame inside an utterance extends the silent
    /// streak and emits the utterance once the streak reaches `gap`; it is never part of
    /// the utterance. A quiet frame outside an utterance is dropped.
    pub fn step(&mut self, loud: bool) -> (a: VadAction)
        requires
            old(self).well_formed(),
        ensures
            final(self).well_formed(),
            final(self).frame_len() == old(self).frame_len(),
            final(self).gap() == old(self).gap(),
            final(self).max() == old(self).max(),
            loud && old(self).buffered() + 1 >= old(self).max() ==> a == (VadAction::AppendAndFlush {
                frames: (old(self).buffered() + 1) as usize,
            }) && final(self).buffered() == 0 && final(self).silent_streak() == 0,
            loud && old(self).buffered() + 1 < old(self).max() ==> a == VadAction::Append
                && final(self).buffered() == old(self).buffered() + 1 && final(self).silent_streak() == 0,
            !loud && old(self).in_utterance() && old(self).silent_streak() + 1 >= old(self).gap() ==> a
                == (VadAction::Flush { frames: old(self).buffered() as usize }) && final(self).buffered() == 0
                && final(self).silent_streak() == 0,
            !loud && old(self).in_utterance() && old(self).silent_streak() + 1 < old(self).gap() ==> a
                == VadAction::Discard && final(self).buffered() == old(self).buffered()
                && final(self).silent_streak() == old(self).silent_streak() + 1,
            !loud && !old(self).in_utterance() ==> a == VadAction::Discard && final(self).buffered() == 0
                && final(self).silent_streak() == 0,
            a matches VadAction::AppendAndFlush { frames } ==> 1 <= frames && (frames <= old(self).max()
                || frames == 1),
            a matches VadAction::Flush { frames } ==> 1 <= frames < old(self).max(),
    {
        if loud {
            let frames = self.buffered_frames + 1;
            self.silent_streak = 0;
            if frames >= self.max_frames {
                self.buffered_frames = 0;
                VadAction::AppendAndFlush { frames }
            } else {
                self.buffered_frames = frames;
                VadAction::Append
            }
        } else if self.buffered_frames > 0 {
            let streak = self.silent_streak + 1;
            if streak >= self.gap_frames {
                let frames = self.buffered_frames;
                self.buffered_frames = 0;
                self.silent_streak = 0;
                VadAction::Flush { frames }
            } else {
                self.silent_streak = streak;
                VadAction::Discard
            }
        } else {
            VadAction::Discard
        }
    }
}

/// The samples of the voiced frames among `pushed`, in order.
pub open spec fn voiced_samples<T>(pushed: Seq<(Seq<T>, bool)>) -> Seq<T>
    decreases pushed.len(),
{
    if pushed.len() == 0 {
        Seq::<T>::empty()
    } else {
        voiced_samples(pushed.drop_last()) + if pushed.last().1 {
            pushed.last().0
        } else {
            Seq::<T>::empty()
        }
    }
}

/// How many frames of `pushed` are voiced.
pub open spec fn voiced_count<T>(pushed: Seq<(Seq<T>, bool)>) -> nat
    decreases pushed.len(),
{
    if pushed.len() == 0 {
        0
    } else {
        voiced_count(pushed.drop_last()) + if pushed.last().1 {
            1nat
        } else {
            0nat
        }
    }
}

/// When every frame holds `n` samples, the voiced samples are `n` per voiced frame.
pub proof fn lemma_voiced_samples_len<T>(pushed: Seq<(Seq<T>, bool)>, n: nat)
    requires
        forall|i: int| 0 <= i < pushed.len() ==> (#[trigger] pushed[i]).0.len() == n,
    ensures
        voiced_samples(pushed).len() == voiced_count(pushed) * n,
    decreases pushed.len(),
{
    if pushed.len() > 0 {
        let front = pushed.drop_last();
        assert forall|i: int| 0 <= i < front.len() implies (#[trigger] front[i]).0.len() == n by {
            assert(front[i] == pushed[i]);
        }
        lemma_voiced_samples_len(front, n);
        assert(pushed.last() == pushed[pushed.len() - 1]);
        let k = voiced_count(front);
        if pushed.last().1 {
            assert(voiced_samples(pushed) == voiced_samples(front) + pushed.last().0);
            assert(voiced_count(pushed) == k + 1);
            assert((k + 1) * n == k * n + n) by (nonlinear_arith);
        } else {
            assert(voiced_samples(pushed) =~= voiced_samples(front));
            assert(voiced_count(pushed) == k);
        }
    } else {
        assert(voiced_count(pushed) == 0);
        assert(0 * n == 0) by (nonlinear_arith);
    }
}

/// How many quiet frames close `pushed`, after its last voiced one.
pub open spec fn trailing_quiet<T>(pushed: Seq<(Seq<T>, bool)>) -> nat
    decreases pushed.len(),
{
    if pushed.len() == 0 || pushed.last().1 {
        0
    } else {
        trailing_quiet(pushed.drop_last()) + 1
    }
}

/// Whether the last frame of `pushed` ends an utterance: it is voiced and brings the
/// voiced frames to `max`, or it is quiet, some frame is voiced, and it is the `gap`-th
/// quiet frame in a row after the last voiced one (the first, when `gap` is 0).
pub open spec fn ends_utterance<T>(pushed: Seq<(Seq<T>, bool)>, gap: nat, max: nat) -> bool {
    &&& pushed.len() > 0
    &&& if pushed.last().1 {
        voiced_count(pushed) >= max
    } else {
        voiced_count(pushed) > 0 && trailing_quiet(pushed) >= gap
    }
}

/// Collects the samples of voiced frames into utterances, as the voice-activity gate
/// decides: each utterance it hands out is, in order, the samples of exactly the voiced
/// frames pushed since the previous one.
pub struct UtteranceBuffer<T> {
    gate: VadState,
    held: Vec<T>,
    pushed: Ghost<Seq<(Seq<T>, bool)>>,
}

impl<T> UtteranceBuffer<T> {
    /// The frames pushed, each with whether it was voiced, since the last utterance was
    /// handed out (or since the buffer was made).
    pub closed spec fn since_last(&self) -> Seq<(Seq<T>, bool)> {
        self.pushed@
    }

    /// Quiet frames that end an utterance.
    pub closed spec fn gap(&self) -> nat {
        self.gate.gap()
    }

    /// Voiced frames at which an utterance is handed out regardless.
    pub closed spec fn max(&self) -> nat {
        self.gate.max()
    }

    /// Samples in one frame.
    pub closed spec fn frame_len(&self) -> nat {
        self.gate.frame_len()
    }

    /// The frame counters agree with the frames pushed since the last utterance, and the
    /// samples held are those of its voiced frames.
    pub closed spec fn well_formed(&self) -> bool {
        &&& self.gate.well_formed()
        &&& forall|i: int| 0 <= i < self.pushed@.len() ==> (#[trigger] self.pushed@[i]).0.len() == self.gate.frame_len()
        &&& self.held@ == voiced_samples(self.pushed@)
        &&& self.gate.buffered() == voiced_count(self.pushed@)
        &&& self.gate.silent_streak() == if voiced_count(self.pushed@) > 0 {
            trailing_quiet(self.pushed@)
        } else {
            0
        }
    }

    /// An empty buffer for frames of `frame_samples` samples; `gap_frames` quiet frames
    /// end an utterance and `max_frames` voiced frames force one out.
    pub fn new(frame_samples: usize, gap_frames: usize, max_frames: usize) -> (r: UtteranceBuffer<T>)
        ensures
            r.well_formed(),
            r.since_last() == Seq::<(Seq<T>, bool)>::empty(),
            r.frame_len() == frame_samples,
            r.gap() == gap_frames,
            r.max() == max_frames,
    {
        UtteranceBuffer { gate: VadState::new(frame_samples, gap_frames, max_frames), held: Vec::new(), pushed: Ghost(Seq::empty()) }
    }

    /// Samples in one frame.
    pub fn frame_samples(&self) -> (r: usize)
        ensures
            r == self.frame_len(),
    {
        self.gate.frame_samples()
    }

    /// Feeds one frame, voiced or quiet. When it ends an utterance, returns the samples
    /// of the voiced frames pushed since the last utterance, in order, and starts afresh;
    /// otherwise returns nothing.
    pub fn push(&mut self, frame: Vec<T>, voiced: bool) -> (r: Vec<T>)
        requires
            old(self).well_formed(),
            frame@.len() == old(self).frame_len(),
        ensures
            r@.len() > 0 <==> old(self).frame_len() > 0 && ends_utterance(
                old(self).since_last().push((frame@, voiced)),
                old(self).gap(),
                old(self).max(),
            ),
            forall|i: int| 0 <= i < final(self).since_last().len() ==> (#[trigger] final(self).since_last()[i]).0.len()
                == final(self).frame_len(),
            final(self).well_formed(),
            final(self).gap() == old(self).gap(),
            final(self).max() == old(self).max(),
            final(self).frame_len() == old(self).frame_len(),
            ends_utterance(old(self).since_last().push((frame@, voiced)), old(self).gap(), old(self).max())
                ==> r@ == voiced_samples(old(self).since_last().push((frame@, voiced)))
                && final(self).since_last() == Seq::<(Seq<T>, bool)>::empty(),
            !ends_utterance(old(self).since_last().push((frame@, voiced)), old(self).gap(), old(self).max())
                ==> r@ == Seq::<T>::empty() && final(self).since_last() == old(self).since_last().push(
                (frame@, voiced),
            ),
    {
        let ghost all = self.pushed@.push((frame@, voiced));
        proof {
            assert(all.drop_last() =~= self.pushed@);
            assert forall|i: int| 0 <= i < all.len() implies (#[trigger] all[i]).0.len() == self.gate.frame_len() by {
                if i < self.pushed@.len() {
                    assert(all[i] == self.pushed@[i]);
                }
            }
            lemma_voiced_samples_len(all, self.gate.frame_len());
            let k = voiced_count(all);
            let n = self.gate.frame_len();
            if voiced {
                assert(k == voiced_count(self.pushed@) + 1);
            }
            if k >= 1 {
                assert(k * n > 0 <==> n > 0) by (nonlinear_arith)
                    requires
                        k >= 1,
                ;
            }
        }
        let mut frame = frame;
        let action = self.gate.step(voiced);
        match action {
            VadAction::Discard => {
                self.pushed = Ghost(all);
                Vec::new()
            },
            VadAction::Append => {
                self.held.append(&mut frame);
                self.pushed = Ghost(all);
                Vec::new()
            },
            VadAction::AppendAndFlush { .. } => {
                self.held.append(&mut frame);
                let mut out: Vec<T> = Vec::new();
                std::mem::swap(&mut out, &mut self.held);
                self.pushed = Ghost(Seq::empty());
                out
            },
            VadAction::Flush { .. } => {
                let mut out: Vec<T> = Vec::new();
                std::mem::swap(&mut out, &mut self.held);
                self.pushed = Ghost(Seq::empty());
                assert(voiced_samples(all) =~= voiced_samples(all.drop_last()));
                out
            },
        }
    }
}

/// When the input rate is `k` times the output rate for some `k` of at least 2, every run
/// of `k` input samples is averaged into one output sample, whatever `k` is.
pub proof fn lemma_multiples_are_averaged(output_rate: u32, k: u32)
    requires
        output_rate > 0,
        k >= 2,
        k * output_rate <= u32::MAX,
    ensures
        method_for((k * output_rate) as u32, output_rate) == (ResampleMethod::Average { factor: k }),
{
    let i = (k * output_rate) as u32;
    assert(i as int == k * output_rate);
    assert(i > output_rate) by (nonlinear_arith)
        requires
            i as int == k * output_rate,
            k >= 2,
            output_rate > 0,
    ;
    vstd::arithmetic::div_mod::lemma_mod_multiples_basic(k as int, output_rate as int);
    vstd::arithmetic::div_mod::lemma_div_multiples_vanish(k as int, output_rate as int);
    assert(k * output_rate == output_rate * k) by (nonlinear_arith);
}

/// Equal rates pass the input through; averaging happens only by a factor that takes the
/// output rate exactly to the input rate, at least 2 for a non-zero input rate; interpolation happens only when
/// the rates differ and the input rate is no multiple of a non-zero output rate.
pub proof fn lemma_resample_method(input_rate: u32, output_rate: u32)
    ensures
        input_rate == output_rate ==> method_for(input_rate, output_rate) == ResampleMethod::PassThrough,
        method_for(input_rate, output_rate) matches ResampleMethod::Average { factor } ==> factor * output_rate
            == input_rate && (input_rate > 0 ==> factor >= 2),
        method_for(input_rate, output_rate) == ResampleMethod::Linear ==> input_rate != output_rate
            && (output_rate == 0 || input_rate % output_rate != 0),
{
    if input_rate != output_rate && output_rate != 0 && input_rate % output_rate == 0 {
        let f = input_rate / output_rate;
        vstd::arithmetic::div_mod::lemma_fundamental_div_mod(input_rate as int, output_rate as int);
        assert(f * output_rate == input_rate) by (nonlinear_arith)
            requires
                input_rate == output_rate * f + input_rate % output_rate,
                input_rate % output_rate == 0,
        ;
        if f == 0 {
            assert(f * output_rate == 0) by (nonlinear_arith)
                requires
                    f == 0,
            ;
        } else if f == 1 {
            assert(f * output_rate == output_rate) by (nonlinear_arith)
                requires
                    f == 1,
            ;
        }
        assert(input_rate > 0 ==> f >= 2);
    }
}

/// The voiced frames among `pushed`, in order.
pub open spec fn voiced_frames<T>(pushed: Seq<(Seq<T>, bool)>) -> Seq<(Seq<T>, bool)> {
    pushed.filter(|f: (Seq<T>, bool)| f.1)
}

/// The counts read off the frames pushed: the voiced samples are the samples of
/// the voiced frames concatenated in order, the voiced count is how many frames are
/// voiced, and the quiet frames at the end are exactly those after the last voiced one.
pub proof fn lemma_gate_reads_the_frames<T>(pushed: Seq<(Seq<T>, bool)>)
    ensures
        voiced_samples(pushed) == voiced_frames(pushed).map_values(|f: (Seq<T>, bool)| f.0).flatten(),
        voiced_count(pushed) == voiced_frames(pushed).len(),
        trailing_quiet(pushed) <= pushed.len(),
        forall|k: int| pushed.len() - trailing_quiet(pushed) <= k < pushed.len() ==> !(#[trigger] pushed[k]).1,
        trailing_quiet(pushed) < pushed.len() ==> pushed[pushed.len() - 1 - trailing_quiet(pushed)].1,
    decreases pushed.len(),
{
    reveal_with_fuel(Seq::filter, 1);
    if pushed.len() > 0 {
        let front = pushed.drop_last();
        let last = pushed.last();
        lemma_gate_reads_the_frames(front);
        let vf = voiced_frames(front);
        let g = |f: (Seq<T>, bool)| f.0;
        if last.1 {
            assert(voiced_frames(pushed) == vf.push(last));
            assert(vf.push(last).map_values(g) =~= vf.map_values(g).push(last.0));
            vf.map_values(g).lemma_flatten_push(last.0);
        } else {
            assert(voiced_frames(pushed) == vf);
            assert(voiced_samples(pushed) =~= voiced_samples(front));
            assert forall|k: int| pushed.len() - trailing_quiet(pushed) <= k < pushed.len() implies !(
            #[trigger] pushed[k]).1 by {
                if k < pushed.len() - 1 {
                    assert(pushed[k] == front[k]);
                }
            }
            if trailing_quiet(pushed) < pushed.len() {
                assert(pushed[pushed.len() - 1 - trailing_quiet(pushed)] == front[front.len() - 1 - trailing_quiet(front)]);
            }
        }
    }
}

/// An utterance ends with a voiced frame that brings the voiced frames to `max`, or with
/// a quiet frame that is the `gap`-th in a row after a voiced one.
pub proof fn lemma_when_utterances_end<T>(pushed: Seq<(Seq<T>, bool)>, gap: nat, max: nat)
    ensures
        ends_utterance(pushed, gap, max) <==> pushed.len() > 0 && (if pushed[pushed.len() - 1].1 {
            voiced_frames(pushed).len() >= max
        } else {
            voiced_frames(pushed).len() > 0 && trailing_quiet(pushed) >= gap
        }),
{
    lemma_gate_reads_the_frames(pushed);
    if pushed.len() > 0 {
        assert(pushed.last() == pushed[pushed.len() - 1]);
    }
}

} // verus!
