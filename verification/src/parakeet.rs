//! The Handy app as a speech recogniser: how it is invoked and how its failures read.
use vstd::prelude::*;
use vstd::string::StringExecFns;
use crate::text::{chars_of, join_chars, join_with, slice_chars, split_chars, split_on, string_of, views};

verus! {

/// The Handy model used when `PARAKEET_MODEL` is unset.
pub const DEFAULT_MODEL: &'static str =
    "handy-computer/parakeet-unified-en-0.6b-gguf/parakeet-unified-en-0.6b-Q8_0.gguf";

/// The program the Handy app is run as.
pub const HANDY_PROGRAM: &'static str = "handy";

/// Hands each utterance to the Handy app's headless batch mode and reads back the text
/// it prints. Handy owns the model, the compute backend and the decoding parameters.
#[derive(Debug, Clone)]
pub struct HandyTranscriber {
    program: String,
    model: String,
}

impl HandyTranscriber {
    /// The program run.
    pub closed spec fn program(&self) -> Seq<char> {
        self.program@
    }

    /// The model Handy is asked to load.
    pub closed spec fn model(&self) -> Seq<char> {
        self.model@
    }

    /// A transcriber running "handy" with `model`.
    pub fn new(model: &str) -> (r: HandyTranscriber)
        ensures
            r.program() == HANDY_PROGRAM@,
            r.model() == model@,
    {
        HandyTranscriber { program: String::from_str(HANDY_PROGRAM), model: String::from_str(model) }
    }

    /// A transcriber running `program` with `model`.
    pub fn with_program(program: &str, model: &str) -> (r: HandyTranscriber)
        ensures
            r.program() == program@,
            r.model() == model@,
    {
        HandyTranscriber { program: String::from_str(program), model: String::from_str(model) }
    }

    /// The program run.
    pub fn program_name(&self) -> (r: &str)
        ensures
            r@ == self.program(),
    {
        self.program.as_str()
    }

    /// The arguments that transcribe `wav_path` with the model, printing JSON.
    pub fn args(&self, wav_path: &str) -> (r: Vec<String>)
        ensures
            r@.map_values(|a: String| a@) == seq![
                "--transcribe-file"@, wav_path@, "--json"@, "--model"@, self.model(),
            ],
    {
        let r = vec![
            String::from_str("--transcribe-file"),
            String::from_str(wav_path),
            String::from_str("--json"),
            String::from_str("--model"),
            String::from_str(self.model.as_str()),
        ];
        assert(r@.map_values(|a: String| a@) =~= seq![
            "--transcribe-file"@, wav_path@, "--json"@, "--model"@, self.model(),
        ]);
        r
    }

    /// The error reported when the program is not on the path; it names the fix.
    pub fn missing_program_message(&self) -> (r: String)
        ensures
            r@ == "could not find '"@ + self.program() + "' on path; install the Handy app or set ASR_ENGINE=whisper"@,
    {
        let mut m = String::from_str("could not find '");
        m.append(self.program.as_str());
        m.append("' on path; install the Handy app or set ASR_ENGINE=whisper");
        m
    }
}

/// A line without the `\r` of a `\r\n` ending.
pub open spec fn without_cr(line: Seq<char>) -> Seq<char> {
    if line.len() > 0 && line.last() == '\r' {
        line.drop_last()
    } else {
        line
    }
}

/// The lines of a text as `str::lines` yields them: split at each `\n`, a final empty
/// piece dropped, and a `\r` ending each line removed.
pub open spec fn text_lines(s: Seq<char>) -> Seq<Seq<char>> {
    let pieces = split_on(s, '\n');
    let kept = if pieces.last().len() == 0 { pieces.drop_last() } else { pieces };
    kept.map_values(|l: Seq<char>| without_cr(l))
}

/// The last three lines of an error output, in order, separated by " | ".
pub open spec fn stderr_tail_text(stderr: Seq<char>) -> Seq<char> {
    let lines = text_lines(stderr);
    let from = if lines.len() > 3 { lines.len() - 3 } else { 0 };
    join_with(lines.skip(from as int), " | "@)
}

/// The last three lines of an error output, in order, separated by " | ".
pub fn stderr_tail(stderr: &str) -> (r: String)
    ensures
        r@ == stderr_tail_text(stderr@),
{
    let cs = chars_of(stderr);
    let pieces = split_chars(cs.as_slice(), '\n');
    let ghost ps = views(pieces@);
    proof {
        lemma_split_nonempty(stderr@, '\n');
    }
    let count: usize = if pieces[pieces.len() - 1].len() == 0 { pieces.len() - 1 } else { pieces.len() };
    let ghost lines = text_lines(stderr@);
    assert(lines.len() == count);
    let from: usize = if count > 3 { count - 3 } else { 0 };
    let mut tail: Vec<Vec<char>> = Vec::new();
    let mut k: usize = from;
    while k < count
        invariant
            from <= k <= count <= pieces.len(),
            ps == views(pieces@),
            ps == split_on(stderr@, '\n'),
            lines == text_lines(stderr@),
            lines.len() == count,
            views(tail@) == lines.subrange(from as int, k as int),
        decreases count - k,
    {
        let piece = &pieces[k];
        let end: usize = if piece.len() > 0 && piece[piece.len() - 1] == '\r' { piece.len() - 1 } else { piece.len() };
        let line = slice_chars(piece.as_slice(), 0, end);
        assert(ps[k as int] == piece@);
        assert(line@ =~= lines[k as int]);
        let ghost prev = tail@;
        tail.push(line);
        assert(views(tail@) =~= views(prev).push(line@));
        assert(lines.subrange(from as int, k + 1) =~= lines.subrange(from as int, k as int).push(lines[k as int]));
        k = k + 1;
    }
    assert(lines.subrange(from as int, count as int) =~= lines.skip(from as int));
    let sep = chars_of(" | ");
    let joined = join_chars(&tail, sep.as_slice());
    string_of(&joined)
}

/// Splitting always yields at least one piece.
proof fn lemma_split_nonempty(s: Seq<char>, sep: char)
    ensures
        split_on(s, sep).len() > 0,
    decreases s.len(),
{
    if s.len() > 0 {
        lemma_split_nonempty(s.drop_last(), sep);
    }
}

/// The lines of Handy's standard output, last first: the order in which they are tried
/// as its JSON reply, since a crash report can precede that reply.
pub fn lines_last_first(stdout: &str) -> (r: Vec<String>)
    ensures
        r@.map_values(|l: String| l@) == text_lines(stdout@).reverse(),
{
    let cs = chars_of(stdout);
    let pieces = split_chars(cs.as_slice(), '\n');
    let ghost ps = views(pieces@);
    proof {
        lemma_split_nonempty(stdout@, '\n');
    }
    let count: usize = if pieces[pieces.len() - 1].len() == 0 { pieces.len() - 1 } else { pieces.len() };
    let ghost lines = text_lines(stdout@);
    assert(lines.len() == count);
    let mut out: Vec<String> = Vec::new();
    let mut k: usize = count;
    while k > 0
        invariant
            k <= count <= pieces.len(),
            ps == views(pieces@),
            ps == split_on(stdout@, '\n'),
            lines == text_lines(stdout@),
            lines.len() == count,
            out@.map_values(|l: String| l@) == lines.reverse().take(count - k),
        decreases k,
    {
        let piece = &pieces[k - 1];
        let end: usize = if piece.len() > 0 && piece[piece.len() - 1] == '\r' { piece.len() - 1 } else { piece.len() };
        let line = slice_chars(piece.as_slice(), 0, end);
        assert(ps[k - 1] == piece@);
        assert(line@ =~= lines[k - 1]);
        let ghost prev = out@;
        out.push(string_of(&line));
        assert(out@.map_values(|l: String| l@) =~= prev.map_values(|l: String| l@).push(line@));
        assert(lines.reverse().take(count - k + 1) =~= lines.reverse().take(count - k).push(lines[k - 1]));
        k = k - 1;
    }
    assert(lines.reverse().take(count as int) =~= lines.reverse());
    out
}

} // verus!
