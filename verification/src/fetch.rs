//! How the audio of a video is fetched: the format selectors, the downloader's
//! arguments, and how its output is read.
//!
//! The stream is fetched preferring the AAC in an MP4 container that YouTube also
//! publishes, which the decoder can read; only when a video offers nothing else is the
//! best stream downloaded and transcoded to WAV.
use vstd::prelude::*;
use vstd::string::StringExecFns;
use crate::text::{
    chars_of, contains_chars, contains_text, decimal, decimal_string, lemma_decimal_round_trip,
    slice_chars, split_chars, split_on, string_of, trim, trim_chars, views,
};

verus! {

/// Audio formats to try, best first.
///
/// `acodec^=mp4a` is the AAC audio YouTube serves inside an MP4 container, and
/// `ext=m4a` catches the same thing on videos that label it differently. The last entry
/// takes any audio-only stream that is not Opus, which covers formats added after this
/// was written.
pub const DECODABLE_FORMAT: &'static str =
    "bestaudio[acodec^=mp4a][vcodec=none]/bestaudio[ext=m4a]/bestaudio[acodec!=opus][vcodec=none]";

/// The selector for the fallback download, which is then transcoded.
pub const BEST_FORMAT: &'static str = "bestaudio";

/// The file name the downloader writes, with the extension it chooses.
pub const TRACK_TEMPLATE: &'static str = "track.%(ext)s";

/// The name the transcoded fallback is written under.
pub const TRANSCODED_TRACK: &'static str = "track.wav";

/// `name` joined onto `dir` the way `Path::join` joins a relative name on Unix: a `/`
/// goes between them unless `dir` is empty or already ends with one.
pub open spec fn joined_path(dir: Seq<char>, name: Seq<char>) -> Seq<char> {
    if dir.len() == 0 {
        name
    } else if dir.last() == '/' {
        dir + name
    } else {
        dir + seq!['/'] + name
    }
}

/// `name` joined onto `dir`.
pub fn join_path(dir: &str, name: &str) -> (r: String)
    ensures
        r@ == joined_path(dir@, name@),
{
    let d = chars_of(dir);
    let mut r = String::from_str(dir);
    if d.len() > 0 && d[d.len() - 1] != '/' {
        r.push('/');
    }
    r.append(name);
    r
}

/// The name of the directory holding one guild's downloaded audio: "shamash-<id>".
pub open spec fn cache_dir_text(guild_id: u64) -> Seq<char> {
    "shamash-"@ + decimal(guild_id as nat)
}

/// The name of the directory holding one guild's downloaded audio.
///
/// A fixed name per guild keeps the temporary directory from growing without bound.
/// The downloader writes to a `.part` file and renames it into place, so replacing the
/// file never disturbs a track that is still playing.
pub fn cache_dir_name(guild_id: u64) -> (r: String)
    ensures
        r@ == cache_dir_text(guild_id),
{
    let mut r = String::from_str("shamash-");
    r.append(decimal_string(guild_id).as_str());
    r
}

/// Different guilds never share a download directory.
pub proof fn lemma_cache_dirs_distinct(a: u64, b: u64)
    requires
        a != b,
    ensures
        cache_dir_text(a) != cache_dir_text(b),
{
    lemma_decimal_round_trip(a);
    lemma_decimal_round_trip(b);
    let p = "shamash-"@;
    if cache_dir_text(a) == cache_dir_text(b) {
        assert(cache_dir_text(a).skip(p.len() as int) =~= decimal(a as nat));
        assert(cache_dir_text(b).skip(p.len() as int) =~= decimal(b as nat));
    }
}

/// The downloader arguments for one download of `url` in `format` into `dir`.
///
/// `--force-overwrites` is the important one: with the downloader's default
/// `--no-force-overwrites` and a fixed output path, a video whose file is already there
/// is skipped, so every request after the first would replay the first song.
/// `--no-part` is deliberately absent: writing straight to the output would truncate the
/// file a playing track is reading, while the default `.part` file is renamed into place.
pub open spec fn download_argv(url: Seq<char>, dir: Seq<char>, format: Seq<char>) -> Seq<Seq<char>> {
    seq![
        "--no-playlist"@, "--no-warnings"@, "--no-simulate"@, "--force-overwrites"@,
        "--format"@, format, "--output"@, joined_path(dir, TRACK_TEMPLATE@),
        "--print"@, "after_move:filepath"@, url,
    ]
}

/// The downloader arguments for one download of `url` in `format` into `dir`.
pub fn download_args(url: &str, dir: &str, format: &str) -> (r: Vec<String>)
    ensures
        r@.map_values(|a: String| a@) == download_argv(url@, dir@, format@),
{
    let r = vec![
        String::from_str("--no-playlist"),
        String::from_str("--no-warnings"),
        String::from_str("--no-simulate"),
        String::from_str("--force-overwrites"),
        String::from_str("--format"),
        String::from_str(format),
        String::from_str("--output"),
        join_path(dir, TRACK_TEMPLATE),
        String::from_str("--print"),
        String::from_str("after_move:filepath"),
        String::from_str(url),
    ];
    assert(r@.map_values(|a: String| a@) =~= download_argv(url@, dir@, format@));
    r
}

/// A line without the `\r` of a `\r\n` ending, as `str::lines` yields it.
pub open spec fn strip_cr(line: Seq<char>) -> Seq<char> {
    if line.len() > 0 && line.last() == '\r' {
        line.drop_last()
    } else {
        line
    }
}

/// The last of the first `n` lines that is not blank, trimmed.
pub open spec fn last_nonblank(lines: Seq<Seq<char>>, n: int) -> Option<Seq<char>>
    decreases n,
{
    if n <= 0 {
        None
    } else if trim(strip_cr(lines[n - 1])).len() > 0 {
        Some(trim(strip_cr(lines[n - 1])))
    } else {
        last_nonblank(lines, n - 1)
    }
}

/// The path the downloader reported: it prints the final path, one per line, and the
/// last non-blank line wins, so a resumed or retried download reports the file that is
/// actually in place.
pub open spec fn reported_path_text(stdout: Seq<char>) -> Option<Seq<char>> {
    last_nonblank(split_on(stdout, '\n'), split_on(stdout, '\n').len() as int)
}

/// The path the downloader reported, if any.
pub fn reported_path(stdout: &str) -> (r: Option<String>)
    ensures
        match reported_path_text(stdout@) {
            Some(p) => r matches Some(s) && s@ == p,
            None => r is None,
        },
{
    let cs = chars_of(stdout);
    let lines = split_chars(cs.as_slice(), '\n');
    let mut n: usize = lines.len();
    while n > 0
        invariant
            n <= lines.len(),
            views(lines@) == split_on(stdout@, '\n'),
            reported_path_text(stdout@) == last_nonblank(views(lines@), n as int),
        decreases n,
    {
        let line = &lines[n - 1];
        assert(views(lines@)[n - 1] == line@);
        let end: usize = if line.len() > 0 && line[line.len() - 1] == '\r' { line.len() - 1 } else { line.len() };
        let stripped = slice_chars(line.as_slice(), 0, end);
        assert(stripped@ =~= strip_cr(line@));
        let t = trim_chars(stripped.as_slice());
        if t.len() > 0 {
            return Some(string_of(&t));
        }
        n = n - 1;
    }
    None
}

/// Why a transcode did not produce audio.
#[derive(Debug, Clone, PartialEq, Eq)]
pub enum TranscodeError {
    /// The transcoder failed; holds its trimmed error output.
    Failed(String),
    /// The transcoder succeeded but wrote no audio.
    EmptyOutput,
}

/// What the transcoder prints when it wrote no audio.
pub open spec fn empty_output_notice() -> Seq<char> {
    "Output file is empty"@
}

/// Judges a transcode by its exit status and error output.
pub fn transcode_outcome(success: bool, stderr: &str) -> (r: Result<(), TranscodeError>)
    ensures
        !success ==> (r matches Err(TranscodeError::Failed(m)) && m@ == trim(stderr@)),
        success && contains_text(stderr@, empty_output_notice()) ==> r matches Err(TranscodeError::EmptyOutput),
        success && !contains_text(stderr@, empty_output_notice()) ==> r is Ok,
{
    let cs = chars_of(stderr);
    if !success {
        let t = trim_chars(cs.as_slice());
        return Err(TranscodeError::Failed(string_of(&t)));
    }
    let notice = chars_of("Output file is empty");
    if contains_chars(cs.as_slice(), notice.as_slice()) {
        Err(TranscodeError::EmptyOutput)
    } else {
        Ok(())
    }
}

/// Why a file the downloader reported is not used.
#[derive(Debug, Clone, Copy, PartialEq, Eq, Structural)]
pub enum DownloadProblem {
    /// The file is empty.
    Empty,
    /// The file was not written since the download started: it is a leftover from an
    /// earlier request, and playing it would replay the previous song.
    Untouched,
}

/// Judges the file a download reported by its length and whether it was written since
/// the download started; an empty file is reported first.
pub fn download_verdict(len: u64, written_since_start: bool) -> (r: Result<(), DownloadProblem>)
    ensures
        len == 0 ==> r == Err::<(), DownloadProblem>(DownloadProblem::Empty),
        len > 0 && !written_since_start ==> r == Err::<(), DownloadProblem>(DownloadProblem::Untouched),
        len > 0 && written_since_start ==> r is Ok,
{
    if len == 0 {
        Err(DownloadProblem::Empty)
    } else if !written_since_start {
        Err(DownloadProblem::Untouched)
    } else {
        Ok(())
    }
}

/// One step of fetching a track.
#[derive(Debug, Clone, Copy, PartialEq, Eq, Structural)]
pub enum FetchStage {
    /// Downloading a stream the decoder reads ([`DECODABLE_FORMAT`]).
    Decodable,
    /// Downloading the best stream ([`BEST_FORMAT`]), to be transcoded.
    Best,
    /// Transcoding the best stream to [`TRANSCODED_TRACK`].
    Transcode,
}

/// What to do next while fetching a track.
#[derive(Debug, Clone, Copy, PartialEq, Eq, Structural)]
pub enum FetchAction {
    /// Run a step.
    Run(FetchStage),
    /// Play the file the decodable download wrote.
    UseDownload,
    /// Play the transcoded file, after removing the downloaded source.
    UseTranscoded,
    /// Give up, with the error of the step that failed.
    Fail,
}

/// The first step of a fetch: the decodable stream is always tried first.
pub fn first_fetch_action() -> (r: FetchAction)
    ensures
        r == FetchAction::Run(FetchStage::Decodable),
{
    FetchAction::Run(FetchStage::Decodable)
}

/// What follows a step: a decodable download is played; when it fails the best stream
/// is downloaded and transcoded, and a failure of either ends the fetch.
pub open spec fn fetch_step(stage: FetchStage, succeeded: bool) -> FetchAction {
    match stage {
        FetchStage::Decodable => if succeeded {
            FetchAction::UseDownload
        } else {
            FetchAction::Run(FetchStage::Best)
        },
        FetchStage::Best => if succeeded {
            FetchAction::Run(FetchStage::Transcode)
        } else {
            FetchAction::Fail
        },
        FetchStage::Transcode => if succeeded {
            FetchAction::UseTranscoded
        } else {
            FetchAction::Fail
        },
    }
}

/// What follows a step that succeeded or failed.
pub fn next_fetch_action(stage: FetchStage, succeeded: bool) -> (r: FetchAction)
    ensures
        r == fetch_step(stage, succeeded),
{
    match stage {
        FetchStage::Decodable => if succeeded {
            FetchAction::UseDownload
        } else {
            FetchAction::Run(FetchStage::Best)
        },
        FetchStage::Best => if succeeded {
            FetchAction::Run(FetchStage::Transcode)
        } else {
            FetchAction::Fail
        },
        FetchStage::Transcode => if succeeded {
            FetchAction::UseTranscoded
        } else {
            FetchAction::Fail
        },
    }
}

/// The format a download step asks for; `None` for the transcode.
pub fn stage_format(stage: FetchStage) -> (r: Option<&'static str>)
    ensures
        stage == FetchStage::Decodable ==> r == Some(DECODABLE_FORMAT),
        stage == FetchStage::Best ==> r == Some(BEST_FORMAT),
        stage == FetchStage::Transcode ==> r is None,
{
    match stage {
        FetchStage::Decodable => Some(DECODABLE_FORMAT),
        FetchStage::Best => Some(BEST_FORMAT),
        FetchStage::Transcode => None,
    }
}

/// Where a fetch stands after at most three steps, the first reporting `a`, the second
/// `b` and the third `c` (a step that is not reached reports nothing).
pub open spec fn fetch_after_three(a: bool, b: bool, c: bool) -> FetchAction {
    match fetch_step(FetchStage::Decodable, a) {
        FetchAction::Run(second) => match fetch_step(second, b) {
            FetchAction::Run(third) => fetch_step(third, c),
            done => done,
        },
        done => done,
    }
}

/// Every fetch ends within three steps: the decodable download is played when it
/// succeeds; otherwise the transcoded best stream is played when both its download and
/// its transcode succeed; otherwise the fetch fails.
pub proof fn lemma_fetch_ends(a: bool, b: bool, c: bool)
    ensures
        fetch_after_three(a, b, c) !is Run,
        fetch_after_three(a, b, c) == FetchAction::UseDownload <==> a,
        fetch_after_three(a, b, c) == FetchAction::UseTranscoded <==> !a && b && c,
        fetch_after_three(a, b, c) == FetchAction::Fail <==> !a && !(b && c),
{
}

} // verus!
