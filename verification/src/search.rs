//! Picks the YouTube result to play for a spoken request.
//!
//! A YouTube search returns whatever matched the words: clips, live performances,
//! lyric videos, 10-minute mixes. This keeps the results that look like actual songs
//! and picks the most-viewed one, so "play look at me" starts the popular track rather
//! than a random upload.
use vstd::prelude::*;
use vstd::string::StringExecFns;
use crate::text::{chars_of, contains_chars, contains_text, lower_chars, lower_seq};

verus! {

/// How many search results to consider.
pub const DEFAULT_CANDIDATES: usize = 10;

/// Where a result's running time falls against the length of a song
/// (at least 30 seconds, at most 15 minutes).
#[derive(Debug, Clone, Copy, PartialEq, Eq, Structural)]
pub enum RunningTime {
    /// YouTube reported no duration.
    Unknown,
    /// Between 30 seconds and 15 minutes, both included.
    SongLength,
    /// Shorter (a clip or sound effect) or longer (a mix, compilation or concert).
    NotSongLength,
}

/// One entry of a YouTube search result.
#[derive(Debug)]
pub struct Candidate {
    /// Video title as shown on YouTube.
    pub title: Option<String>,
    /// Canonical watch URL.
    pub url: String,
    /// View count, when YouTube reports one.
    pub view_count: Option<u64>,
    /// How the reported duration compares with the length of a song.
    pub running_time: RunningTime,
    /// Uploading channel, used as the artist hint in logs.
    pub channel: Option<String>,
}

/// Title fragments that mark a result as "not the song itself".
pub open spec fn non_song_markers() -> Seq<Seq<char>> {
    seq![
        "lyric"@, "cover band"@, "cover version"@, "nightcore"@, "slowed"@, "sped up"@,
        "reverb"@, "remix"@, "karaoke"@, "instrumental"@, "reaction"@, "tutorial"@, "vlog"@,
        "full album"@, "compilation"@,
    ]
}

/// The title a result is judged by: its ASCII-lowercased title, empty when it has none.
pub open spec fn judged_title(c: &Candidate) -> Seq<char> {
    match c.title {
        Some(t) => lower_seq(t@),
        None => Seq::<char>::empty(),
    }
}

/// Whether the result looks like a song rather than a clip, cover, or mix: its length is
/// plausible (an unknown length lets popularity decide) and its title holds no marker.
pub open spec fn is_song(c: &Candidate) -> bool {
    c.running_time != RunningTime::NotSongLength
        && forall|i: int| 0 <= i < non_song_markers().len() ==> !#[trigger] contains_text(judged_title(c), non_song_markers()[i])
}

/// The views a result is ranked by: its view count, 0 when unknown.
pub open spec fn views(c: &Candidate) -> u64 {
    match c.view_count {
        Some(v) => v,
        None => 0,
    }
}

/// The most-viewed song among the first `n` entries; of equally viewed ones the last.
pub open spec fn best_song(entries: Seq<Candidate>, n: int) -> Option<int>
    decreases n,
{
    if n <= 0 {
        None
    } else {
        let prev = best_song(entries, n - 1);
        if !is_song(&entries[n - 1]) {
            prev
        } else {
            match prev {
                Some(j) => if views(&entries[j]) <= views(&entries[n - 1]) { Some(n - 1) } else { Some(j) },
                None => Some(n - 1),
            }
        }
    }
}

/// The most-viewed of the first `n` entries; of equally viewed ones the last.
pub open spec fn most_viewed(entries: Seq<Candidate>, n: int) -> Option<int>
    decreases n,
{
    if n <= 0 {
        None
    } else {
        match most_viewed(entries, n - 1) {
            Some(j) => if views(&entries[j]) <= views(&entries[n - 1]) { Some(n - 1) } else { Some(j) },
            None => Some(n - 1),
        }
    }
}

/// The entry to play: the most-viewed song, or, when no entry looks like a song, the
/// most-viewed entry at all.
pub open spec fn choice(entries: Seq<Candidate>) -> Option<int> {
    match best_song(entries, entries.len() as int) {
        Some(i) => Some(i),
        None => most_viewed(entries, entries.len() as int),
    }
}

impl Candidate {
    /// The title, or "unknown title".
    pub fn title(&self) -> (r: &str)
        ensures
            r@ == match self.title {
                Some(t) => t@,
                None => "unknown title"@,
            },
    {
        match &self.title {
            Some(t) => t.as_str(),
            None => "unknown title",
        }
    }

    /// The uploading channel, or "unknown channel".
    pub fn channel(&self) -> (r: &str)
        ensures
            r@ == match self.channel {
                Some(c) => c@,
                None => "unknown channel"@,
            },
    {
        match &self.channel {
            Some(c) => c.as_str(),
            None => "unknown channel",
        }
    }

    /// Whether the result looks like a song rather than a clip, cover, or mix.
    pub fn is_song(&self) -> (r: bool)
        ensures
            r == is_song(self),
    {
        if self.running_time == RunningTime::NotSongLength {
            return false;
        }
        let title: Vec<char> = match &self.title {
            Some(t) => lower_chars(chars_of(t.as_str()).as_slice()),
            None => Vec::new(),
        };
        assert(title@ == judged_title(self));
        let markers: Vec<&str> = vec![
            "lyric", "cover band", "cover version", "nightcore", "slowed", "sped up", "reverb",
            "remix", "karaoke", "instrumental", "reaction", "tutorial", "vlog", "full album",
            "compilation",
        ];
        assert(markers@.map_values(|m: &str| m@) =~= non_song_markers());
        let mut i: usize = 0;
        while i < markers.len()
            invariant
                i <= markers.len(),
                markers@.map_values(|m: &str| m@) == non_song_markers(),
                title@ == judged_title(self),
                forall|k: int| 0 <= k < i ==> !#[trigger] contains_text(judged_title(self), non_song_markers()[k]),
            decreases markers.len() - i,
        {
            let m = chars_of(markers[i]);
            assert(m@ == non_song_markers()[i as int]);
            if contains_chars(title.as_slice(), m.as_slice()) {
                return false;
            }
            i = i + 1;
        }
        true
    }

    /// The views the result is ranked by: its view count, 0 when unknown.
    pub fn views(&self) -> (r: u64)
        ensures
            r == views(self),
    {
        match self.view_count {
            Some(v) => v,
            None => 0,
        }
    }
}

/// Picks the most-viewed song, ignoring non-song results when any song is available and
/// otherwise falling back to the most-viewed result at all. Of equally viewed results the
/// later one wins. `None` only for an empty list.
pub fn select_index(entries: &[Candidate]) -> (r: Option<usize>)
    ensures
        match r {
            Some(i) => choice(entries@) == Some(i as int),
            None => choice(entries@) is None,
        },
{
    let mut best: Option<usize> = None;
    let mut top: Option<usize> = None;
    for n in 0..entries.len()
        invariant
            match best {
                Some(i) => best_song(entries@, n as int) == Some(i as int),
                None => best_song(entries@, n as int) is None,
            },
            match top {
                Some(i) => most_viewed(entries@, n as int) == Some(i as int),
                None => most_viewed(entries@, n as int) is None,
            },
            forall|i: usize| best == Some(i) ==> i < n,
            forall|i: usize| top == Some(i) ==> i < n,
    {
        let v = entries[n].views();
        top = match top {
            Some(j) => if entries[j].views() <= v { Some(n) } else { Some(j) },
            None => Some(n),
        };
        if entries[n].is_song() {
            best = match best {
                Some(j) => if entries[j].views() <= v { Some(n) } else { Some(j) },
                None => Some(n),
            };
        }
    }
    match best {
        Some(i) => Some(i),
        None => top,
    }
}

/// The entry [`select_index`] picks.
pub fn select(entries: &[Candidate]) -> (r: Option<&Candidate>)
    ensures
        match choice(entries@) {
            Some(i) => r == Some(&entries@[i]),
            None => r is None,
        },
{
    proof {
        lemma_choice_is_most_viewed_song(entries@);
    }
    match select_index(entries) {
        Some(i) => Some(&entries[i]),
        None => None,
    }
}

} // verus!

verus! {

proof fn lemma_best_song(entries: Seq<Candidate>, n: int)
    requires
        0 <= n <= entries.len(),
    ensures
        best_song(entries, n) is None <==> forall|j: int| 0 <= j < n ==> !is_song(&entries[j]),
        best_song(entries, n) matches Some(i) ==> 0 <= i < n && is_song(&entries[i]) && forall|j: int|
            0 <= j < n && is_song(&entries[j]) ==> views(&entries[j]) <= views(&entries[i]),
        best_song(entries, n) matches Some(i) ==> forall|j: int|
            i < j < n && is_song(&entries[j]) ==> views(&entries[j]) < views(&entries[i]),
    decreases n,
{
    if n > 0 {
        lemma_best_song(entries, n - 1);
    }
}

proof fn lemma_most_viewed(entries: Seq<Candidate>, n: int)
    requires
        0 <= n <= entries.len(),
    ensures
        most_viewed(entries, n) is None <==> n == 0,
        most_viewed(entries, n) matches Some(i) ==> 0 <= i < n && forall|j: int|
            0 <= j < n ==> views(&entries[j]) <= views(&entries[i]),
        most_viewed(entries, n) matches Some(i) ==> forall|j: int| i < j < n ==> views(&entries[j]) < views(&entries[i]),
    decreases n,
{
    if n > 0 {
        lemma_most_viewed(entries, n - 1);
    }
}

/// What gets played: nothing only when the search found nothing; a song whenever any
/// result looks like one, and then none of the songs has more views; otherwise no
/// result at all has more views. Of equally viewed candidates the later one is played:
/// every candidate after the one played has fewer views.
pub proof fn lemma_choice_is_most_viewed_song(entries: Seq<Candidate>)
    ensures
        choice(entries) is None <==> entries.len() == 0,
        choice(entries) matches Some(i) ==> 0 <= i < entries.len(),
        choice(entries) matches Some(i) ==> (exists|j: int| 0 <= j < entries.len() && is_song(&entries[j]))
            ==> is_song(&entries[i]) && forall|j: int|
            0 <= j < entries.len() && is_song(&entries[j]) ==> views(&entries[j]) <= views(&entries[i]),
        choice(entries) matches Some(i) ==> (forall|j: int| 0 <= j < entries.len() ==> !is_song(&entries[j]))
            ==> forall|j: int| 0 <= j < entries.len() ==> views(&entries[j]) <= views(&entries[i]),
        choice(entries) matches Some(i) ==> (exists|j: int| 0 <= j < entries.len() && is_song(&entries[j]))
            ==> forall|j: int| i < j < entries.len() && is_song(&entries[j]) ==> views(&entries[j]) < views(&entries[i]),
        choice(entries) matches Some(i) ==> (forall|j: int| 0 <= j < entries.len() ==> !is_song(&entries[j]))
            ==> forall|j: int| i < j < entries.len() ==> views(&entries[j]) < views(&entries[i]),
{
    lemma_best_song(entries, entries.len() as int);
    lemma_most_viewed(entries, entries.len() as int);
}

} // verus!

verus! {

/// The downloader arguments that list the first `candidates` search results for
/// `query` as JSON lines; `None` when no candidate is asked for.
pub open spec fn search_argv(query: Seq<char>, candidates: usize) -> Option<Seq<Seq<char>>> {
    if candidates == 0 {
        None
    } else {
        let n = crate::text::decimal(candidates as nat);
        Some(seq!["-j"@, "--flat-playlist"@, "--no-warnings"@, "--playlist-end"@, n, "ytsearch"@ + n + ":"@ + query])
    }
}

/// The downloader arguments for a search.
pub fn search_args(query: &str, candidates: usize) -> (r: Option<Vec<String>>)
    ensures
        match search_argv(query@, candidates) {
            Some(args) => r matches Some(v) && v@.map_values(|a: String| a@) == args,
            None => r is None,
        },
{
    if candidates == 0 {
        return None;
    }
    let n = crate::text::decimal_string(candidates as u64);
    let mut target = String::from_str("ytsearch");
    target.append(n.as_str());
    target.append(":");
    target.append(query);
    let r = vec![
        String::from_str("-j"),
        String::from_str("--flat-playlist"),
        String::from_str("--no-warnings"),
        String::from_str("--playlist-end"),
        n,
        target,
    ];
    assert(r@.map_values(|a: String| a@) =~= search_argv(query@, candidates)->0);
    Some(r)
}

/// A result counts as a song exactly when its length is plausible and its title,
/// lowercased, holds none of "lyric", "cover band", "cover version", "nightcore",
/// "slowed", "sped up", "reverb", "remix", "karaoke", "instrumental", "reaction",
/// "tutorial", "vlog", "full album" and "compilation".
pub proof fn lemma_song_markers(c: Candidate)
    ensures
        ({
            let t = match c.title {
                Some(s) => lower_seq(s@),
                None => Seq::<char>::empty(),
            };
            is_song(&c) <==> c.running_time != RunningTime::NotSongLength
                && !contains_text(t, "lyric"@) && !contains_text(t, "cover band"@)
                && !contains_text(t, "cover version"@) && !contains_text(t, "nightcore"@)
                && !contains_text(t, "slowed"@) && !contains_text(t, "sped up"@)
                && !contains_text(t, "reverb"@) && !contains_text(t, "remix"@)
                && !contains_text(t, "karaoke"@) && !contains_text(t, "instrumental"@)
                && !contains_text(t, "reaction"@) && !contains_text(t, "tutorial"@)
                && !contains_text(t, "vlog"@) && !contains_text(t, "full album"@)
                && !contains_text(t, "compilation"@)
        }),
{
    let m = non_song_markers();
    assert(m.len() == 15);
    assert(m[0] == "lyric"@ && m[1] == "cover band"@ && m[2] == "cover version"@ && m[3] == "nightcore"@);
    assert(m[4] == "slowed"@ && m[5] == "sped up"@ && m[6] == "reverb"@ && m[7] == "remix"@);
    assert(m[8] == "karaoke"@ && m[9] == "instrumental"@ && m[10] == "reaction"@ && m[11] == "tutorial"@);
    assert(m[12] == "vlog"@ && m[13] == "full album"@ && m[14] == "compilation"@);
}

/// A result is ranked by its reported view count, and one with no count by 0.
pub proof fn lemma_views_are_the_count(c: Candidate)
    ensures
        c.view_count matches Some(v) ==> views(&c) == v,
        c.view_count is None ==> views(&c) == 0,
{
}

} // verus!
