//! Turns transcripts into play requests: a wake word followed by "play <something>".
use vstd::prelude::*;
use crate::text::{
    ascii_lower, chars_of, char_is_alphanumeric, lemma_ascii_lower_twice, lemma_filter_elements, lemma_join_shape, lemma_lowercase_fixed,
    lemma_filter_keeps_all, lemma_join_chars, lemma_ws_words_join, lemma_ws_words_shape, lemma_ws_words_push_space, char_is_whitespace, join_chars, join_with, lower_chars, lower_seq,
    rfind, rfind_chars, same_chars, slice_chars, lowercase_string, space, split_chars, split_on, string_of, trim, trim_chars,
    trim_start_matches, trim_start_matches_chars, alphanumeric, views, white_space,
    ws_words, whitespace_words, lemma_split_join, lemma_trim_unchanged, lemma_rfind_none, occurs_at,
};

verus! {

// ---------------------------------------------------------------------------
// What the parser hears
// ---------------------------------------------------------------------------

/// Whether a lowercased char survives normalisation: letters, digits and whitespace.
pub open spec fn keeps(c: char) -> bool {
    alphanumeric(c) || white_space(c)
}

/// A transcript lowercased, stripped of punctuation, with whitespace runs collapsed to
/// single spaces and none at either end.
pub open spec fn normalize(t: Seq<char>) -> Seq<char> {
    join_with(ws_words(lower_seq(t).filter(|c: char| keeps(c))), space())
}

/// The words of a transcript: its normal form split at each space.
pub open spec fn heard_words(t: Seq<char>) -> Seq<Seq<char>> {
    split_on(normalize(t), ' ')
}

/// The verb that starts a request.
pub open spec fn play_word() -> Seq<char> {
    seq!['p', 'l', 'a', 'y']
}

/// The separator between a title and its artist.
pub open spec fn by_separator() -> Seq<char> {
    seq![' ', 'b', 'y', ' ']
}

/// `a` and `b` differ by exactly one substituted, inserted or deleted char.
pub open spec fn one_edit_apart(a: Seq<char>, b: Seq<char>) -> bool {
    ||| a.len() == b.len() && exists|i: int| 0 <= i < a.len() && a[i] != b[i] && #[trigger] a.update(i, b[i]) == b
    ||| a.len() == b.len() + 1 && exists|i: int| 0 <= i < a.len() && #[trigger] a.remove(i) == b
    ||| b.len() == a.len() + 1 && exists|i: int| 0 <= i < b.len() && #[trigger] b.remove(i) == a
}

/// Wake words longer than four letters tolerate one misheard character; shorter ones
/// must be heard exactly.
pub open spec fn hears_wake_word(heard: Seq<char>, wake: Seq<char>) -> bool {
    heard == wake || (wake.len() > 4 && one_edit_apart(heard, wake))
}

/// Whether a heard word answers to one of the wake words.
pub open spec fn is_wake_word(heard: Seq<char>, wake_words: Set<Seq<char>>) -> bool {
    exists|w: Seq<char>| wake_words.contains(w) && #[trigger] hears_wake_word(heard, w)
}

/// The first index at or after `from` whose word answers to a wake word.
pub open spec fn first_wake_from(words: Seq<Seq<char>>, from: int, wake_words: Set<Seq<char>>) -> Option<int>
    decreases words.len() - from,
{
    if from < 0 || from >= words.len() {
        None
    } else if is_wake_word(words[from], wake_words) {
        Some(from)
    } else {
        first_wake_from(words, from + 1, wake_words)
    }
}

/// The first index at or after `from` whose word is "play".
pub open spec fn first_play_from(words: Seq<Seq<char>>, from: int) -> Option<int>
    decreases words.len() - from,
{
    if from < 0 || from >= words.len() {
        None
    } else if words[from] == play_word() {
        Some(from)
    } else {
        first_play_from(words, from + 1)
    }
}

/// Where the first wake word was heard.
pub open spec fn wake_position(words: Seq<Seq<char>>, wake_words: Set<Seq<char>>) -> Option<int> {
    first_wake_from(words, 0, wake_words)
}

/// Where "play" follows the wake word heard at `wake_at`. A wake word that is "play"
/// itself stands in for the verb, so a bare "play <query>" is enough.
pub open spec fn play_position(words: Seq<Seq<char>>, wake_at: int) -> Option<int> {
    if words[wake_at] == play_word() {
        Some(wake_at)
    } else {
        first_play_from(words, wake_at + 1)
    }
}

/// Title and artist of "<title> by <artist>", split at the last " by ".
pub open spec fn split_artist(rest: Seq<char>) -> (Option<Seq<char>>, Option<Seq<char>>) {
    match rfind(rest, by_separator()) {
        None => (None, None),
        Some(i) => {
            let title = trim(rest.take(i));
            let artist = trim(trim_start_matches(rest.skip(i), by_separator()));
            if title.len() == 0 || artist.len() == 0 {
                (None, None)
            } else {
                (Some(title), Some(artist))
            }
        },
    }
}

/// The request made by the words after "play".
pub open spec fn request_for(rest: Seq<char>) -> RequestView {
    let (title, artist) = split_artist(rest);
    let query = match (title, artist) {
        (Some(t), Some(a)) => t + by_separator() + a,
        _ => rest,
    };
    RequestView { query, title, artist }
}

/// What a transcript asks for, or why it asks for nothing.
pub open spec fn parse_transcript(wake_words: Set<Seq<char>>, t: Seq<char>) -> Result<RequestView, ParseMiss> {
    let words = heard_words(t);
    match wake_position(words, wake_words) {
        None => Err(ParseMiss::NoWakeWord),
        Some(wake_at) => match play_position(words, wake_at) {
            None => Err(ParseMiss::NoPlayVerb),
            Some(play_at) => {
                let rest = join_with(words.skip(play_at + 1), space());
                if rest.len() == 0 {
                    Err(ParseMiss::EmptyRequest)
                } else {
                    Ok(request_for(rest))
                }
            },
        },
    }
}

// ---------------------------------------------------------------------------
// Types
// ---------------------------------------------------------------------------

/// A music request extracted from a spoken command.
#[derive(Debug, Clone, PartialEq, Eq)]
pub struct PlayRequest {
    /// The search query to send to the music source.
    pub query: String,
    /// The detected title, when the transcript had "play <title> by <artist>".
    pub title: Option<String>,
    /// The detected artist, when the transcript had "play <title> by <artist>".
    pub artist: Option<String>,
}

/// The text held by an optional string.
pub open spec fn opt_view(o: Option<String>) -> Option<Seq<char>> {
    match o {
        Some(s) => Some(s@),
        None => None,
    }
}

/// The text of a [`PlayRequest`].
pub struct RequestView {
    pub query: Seq<char>,
    pub title: Option<Seq<char>>,
    pub artist: Option<Seq<char>>,
}

impl View for PlayRequest {
    type V = RequestView;

    open spec fn view(&self) -> RequestView {
        RequestView { query: self.query@, title: opt_view(self.title), artist: opt_view(self.artist) }
    }
}

/// Why a transcript did not yield a play request.
#[derive(Debug, Clone, Copy, PartialEq, Eq, Structural)]
pub enum ParseMiss {
    /// No configured wake word was heard.
    NoWakeWord,
    /// The wake word was heard, but "play" never followed it.
    NoPlayVerb,
    /// "play" was heard with nothing to play after it.
    EmptyRequest,
}

} // verus!

verus! {

/// The normal form of a transcript: lowercased, punctuation dropped, whitespace collapsed.
pub fn normalize_chars(t: &[char]) -> (r: Vec<char>)
    ensures
        r@ == normalize(t@),
{
    let lowered = lower_chars(t);
    let mut kept: Vec<char> = Vec::new();
    assert(lowered@.take(0).filter(|c: char| keeps(c)) =~= Seq::<char>::empty()) by {
        reveal_with_fuel(Seq::filter, 1);
    }
    for i in 0..lowered.len()
        invariant
            kept@ == lowered@.take(i as int).filter(|c: char| keeps(c)),
    {
        let c = lowered[i];
        proof {
            reveal_with_fuel(Seq::filter, 1);
            assert(lowered@.take(i + 1).drop_last() =~= lowered@.take(i as int));
        }
        if char_is_alphanumeric(c) || char_is_whitespace(c) {
            kept.push(c);
        }
    }
    assert(lowered@.take(lowered.len() as int) =~= lowered@);
    let words = whitespace_words(kept.as_slice());
    let sep: Vec<char> = vec![' '];
    assert(sep@ =~= space());
    join_chars(&words, sep.as_slice())
}

/// Whether `a` with its char at `i` replaced by `b[i]` equals `b`.
fn substitution_matches(a: &[char], b: &[char], i: usize) -> (r: bool)
    requires
        a.len() == b.len(),
        i < a.len(),
    ensures
        r == (a@.update(i as int, b@[i as int]) == b@),
{
    let mut j: usize = 0;
    while j < a.len()
        invariant
            a.len() == b.len(),
            i < a.len(),
            j <= a.len(),
            forall|k: int| 0 <= k < j && k != i ==> a@[k] == b@[k],
        decreases a.len() - j,
    {
        if j != i && a[j] != b[j] {
            assert(a@.update(i as int, b@[i as int])[j as int] != b@[j as int]);
            return false;
        }
        j = j + 1;
    }
    assert(a@.update(i as int, b@[i as int]) =~= b@);
    true
}

/// Whether `a` with its char at `i` removed equals `b`.
fn removal_matches(a: &[char], b: &[char], i: usize) -> (r: bool)
    requires
        a.len() == b.len() + 1,
        i < a.len(),
    ensures
        r == (a@.remove(i as int) == b@),
{
    proof {
        a@.remove_ensures(i as int);
    }
    let mut j: usize = 0;
    while j < b.len()
        invariant
            a.len() == b.len() + 1,
            i < a.len(),
            j <= b.len(),
            forall|k: int| 0 <= k < j ==> a@.remove(i as int)[k] == b@[k],
        decreases b.len() - j,
    {
        let c = if j < i { a[j] } else { a[j + 1] };
        if c != b[j] {
            return false;
        }
        j = j + 1;
    }
    assert(a@.remove(i as int) =~= b@);
    true
}

/// Whether `a` and `b` differ by exactly one substituted, inserted or deleted char.
pub fn one_edit_apart_exec(a: &[char], b: &[char]) -> (r: bool)
    ensures
        r == one_edit_apart(a@, b@),
{
    if a.len() == b.len() {
        let mut i: usize = 0;
        while i < a.len()
            invariant
                a.len() == b.len(),
                i <= a.len(),
                forall|k: int| 0 <= k < i ==> !(a@[k] != b@[k] && #[trigger] a@.update(k, b@[k]) == b@),
            decreases a.len() - i,
        {
            if a[i] != b[i] && substitution_matches(a, b, i) {
                return true;
            }
            i = i + 1;
        }
        false
    } else if a.len() > b.len() && a.len() - b.len() == 1 {
        let mut i: usize = 0;
        while i < a.len()
            invariant
                a.len() == b.len() + 1,
                i <= a.len(),
                forall|k: int| 0 <= k < i ==> #[trigger] a@.remove(k) != b@,
            decreases a.len() - i,
        {
            if removal_matches(a, b, i) {
                return true;
            }
            i = i + 1;
        }
        false
    } else if b.len() > a.len() && b.len() - a.len() == 1 {
        let mut i: usize = 0;
        while i < b.len()
            invariant
                b.len() == a.len() + 1,
                i <= b.len(),
                forall|k: int| 0 <= k < i ==> #[trigger] b@.remove(k) != a@,
            decreases b.len() - i,
        {
            if removal_matches(b, a, i) {
                return true;
            }
            i = i + 1;
        }
        false
    } else {
        false
    }
}

/// Whether a heard word answers to the wake word `wake`.
pub fn hears_wake_word_exec(heard: &[char], wake: &[char]) -> (r: bool)
    ensures
        r == hears_wake_word(heard@, wake@),
{
    if same_chars(heard, wake) {
        true
    } else {
        wake.len() > 4 && one_edit_apart_exec(heard, wake)
    }
}

} // verus!

verus! {

/// The lowercased form of each configured word.
pub open spec fn lowered_words(words: Seq<String>) -> Seq<Seq<char>> {
    words.map_values(|w: String| lower_seq(w@))
}

/// Appending `x` to a sequence adds `x` to its set of elements.
proof fn lemma_push_to_set(s: Seq<Seq<char>>, x: Seq<char>)
    ensures
        s.push(x).to_set() == s.to_set().insert(x),
{
    assert forall|y: Seq<char>| s.push(x).contains(y) <==> s.to_set().insert(x).contains(y) by {
        if s.contains(y) {
            let k = choose|k: int| 0 <= k < s.len() && s[k] == y;
            assert(s.push(x)[k] == y);
        }
        if y == x {
            assert(s.push(x)[s.len() as int] == x);
        }
        if s.push(x).contains(y) {
            let k = choose|k: int| 0 <= k < s.len() + 1 && s.push(x)[k] == y;
            if k < s.len() {
                assert(s[k] == y);
            }
        }
    }
    assert(s.push(x).to_set() =~= s.to_set().insert(x));
}

/// The words a parser answers to, each lowercased and held once.
#[derive(Debug)]
pub struct WakeWords {
    words: Vec<String>,
}

impl WakeWords {
    /// The words, in the order they were first configured.
    pub closed spec fn entries(&self) -> Seq<Seq<char>> {
        self.words@.map_values(|w: String| w@)
    }

    /// No word is held twice.
    #[verifier::type_invariant]
    closed spec fn held_once(&self) -> bool {
        self.entries().no_duplicates()
    }

    /// Collects the lowercased words, dropping repeats.
    pub fn new(words: Vec<String>) -> (r: WakeWords)
        ensures
            r@ == lowered_words(words@).to_set(),
    {
        let mut held: Vec<String> = Vec::new();
        for i in 0..words.len()
            invariant
                held@.map_values(|w: String| w@).no_duplicates(),
                held@.map_values(|w: String| w@).to_set() == lowered_words(words@.take(i as int)).to_set(),
        {
            let lw = lowercase_string(words[i].as_str());
            let ghost prev = held@.map_values(|w: String| w@);
            let mut seen = false;
            let mut j: usize = 0;
            while j < held.len()
                invariant
                    j <= held.len(),
                    prev == held@.map_values(|w: String| w@),
                    seen == exists|k: int| 0 <= k < j && prev[k] == lw@,
                decreases held.len() - j,
            {
                assert(prev[j as int] == held@[j as int]@);
                if same_chars(chars_of(held[j].as_str()).as_slice(), chars_of(lw.as_str()).as_slice()) {
                    seen = true;
                }
                j = j + 1;
            }
            proof {
                assert(words@.take(i + 1) =~= words@.take(i as int).push(words@[i as int]));
                assert(lowered_words(words@.take(i + 1)) =~= lowered_words(words@.take(i as int)).push(lw@));
                lemma_push_to_set(lowered_words(words@.take(i as int)), lw@);
                lemma_push_to_set(prev, lw@);
            }
            if !seen {
                held.push(lw);
                proof {
                    assert(held@.map_values(|w: String| w@) =~= prev.push(lw@));
                }
            } else {
                proof {
                    let k = choose|k: int| 0 <= k < held@.len() && prev[k] == lw@;
                    assert(prev.contains(lw@));
                    assert(prev.to_set().insert(lw@) =~= prev.to_set());
                }
            }
        }
        assert(words@.take(words.len() as int) =~= words@);
        WakeWords { words: held }
    }

    /// Whether `word` is one of the wake words.
    pub fn contains(&self, word: &str) -> (r: bool)
        ensures
            r == self@.contains(word@),
    {
        let w = chars_of(word);
        let mut i: usize = 0;
        while i < self.words.len()
            invariant
                i <= self.words.len(),
                w@ == word@,
                forall|k: int| 0 <= k < i ==> self.entries()[k] != word@,
            decreases self.words.len() - i,
        {
            let held = chars_of(self.words[i].as_str());
            assert(held@ == self.entries()[i as int]);
            if same_chars(held.as_slice(), w.as_slice()) {
                assert(self.entries().contains(word@));
                return true;
            }
            i = i + 1;
        }
        false
    }

    /// Whether a heard word answers to one of the wake words.
    pub fn answers(&self, heard: &[char]) -> (r: bool)
        ensures
            r == is_wake_word(heard@, self@),
    {
        let mut i: usize = 0;
        while i < self.words.len()
            invariant
                i <= self.words.len(),
                forall|k: int| 0 <= k < i ==> !hears_wake_word(heard@, #[trigger] self.entries()[k]),
            decreases self.words.len() - i,
        {
            assert(self.entries()[i as int] == self.words@[i as int]@);
            if hears_wake_word_exec(heard, chars_of(self.words[i].as_str()).as_slice()) {
                assert(self@.contains(self.entries()[i as int]));
                return true;
            }
            i = i + 1;
        }
        assert forall|w: Seq<char>| self@.contains(w) implies !hears_wake_word(heard@, w) by {
            let k = choose|k: int| 0 <= k < self.entries().len() && self.entries()[k] == w;
        }
        false
    }

    /// The words, each once, in the order they were first configured.
    pub fn as_slice(&self) -> (r: &[String])
        ensures
            r@.map_values(|w: String| w@) == self.entries(),
            self.entries().to_set() == self@,
            self.entries().no_duplicates(),
    {
        proof {
            use_type_invariant(self);
        }
        self.words.as_slice()
    }
}

impl Clone for WakeWords {
    fn clone(&self) -> (r: Self)
        ensures
            r@ == self@,
    {
        proof {
            use_type_invariant(self);
        }
        let mut words: Vec<String> = Vec::new();
        for i in 0..self.words.len()
            invariant
                words@.map_values(|w: String| w@) == self.entries().take(i as int),
                self.entries().no_duplicates(),
        {
            let w = self.words[i].clone();
            assert(w@ == self.words@[i as int]@);
            assert(self.entries()[i as int] == self.words@[i as int]@);
            let ghost prev = words@;
            words.push(w);
            assert(words@ == prev.push(w));
            assert(words@.map_values(|w: String| w@) =~= prev.map_values(|w: String| w@).push(w@));
            assert(self.entries().take(i + 1) =~= self.entries().take(i as int).push(self.entries()[i as int]));
        }
        assert(self.entries().take(self.words.len() as int) =~= self.entries());
        WakeWords { words }
    }
}

impl View for WakeWords {
    type V = Set<Seq<char>>;

    closed spec fn view(&self) -> Set<Seq<char>> {
        self.entries().to_set()
    }
}

} // verus!

verus! {

/// The text of a parse outcome.
pub open spec fn outcome_view(r: Result<PlayRequest, ParseMiss>) -> Result<RequestView, ParseMiss> {
    match r {
        Ok(q) => Ok(q@),
        Err(m) => Err(m),
    }
}

/// Turns transcripts into [`PlayRequest`]s using a wake word + "play" grammar.
#[derive(Debug)]
pub struct CommandParser {
    wake_words: WakeWords,
}

impl View for CommandParser {
    type V = Set<Seq<char>>;

    /// The wake words the parser answers to.
    closed spec fn view(&self) -> Set<Seq<char>> {
        self.wake_words@
    }
}

/// Title and artist of "<title> by <artist>", split at the last " by ".
fn split_artist_exec(rest: &[char]) -> (r: (Option<Vec<char>>, Option<Vec<char>>))
    ensures
        (match r.0 { Some(t) => Some(t@), None => None }, match r.1 { Some(a) => Some(a@), None => None })
            == split_artist(rest@),
{
    let by: Vec<char> = vec![' ', 'b', 'y', ' '];
    assert(by@ =~= by_separator());
    match rfind_chars(rest, by.as_slice()) {
        None => (None, None),
        Some(idx) => {
            proof {
                crate::text::lemma_rfind_none(rest@, by@);
            }
            let head = slice_chars(rest, 0, idx);
            assert(head@ =~= rest@.take(idx as int));
            let title = trim_chars(head.as_slice());
            let tail = slice_chars(rest, idx, rest.len());
            assert(tail@ =~= rest@.skip(idx as int));
            let stripped = trim_start_matches_chars(tail.as_slice(), by.as_slice());
            let artist = trim_chars(stripped.as_slice());
            if title.len() == 0 || artist.len() == 0 {
                (None, None)
            } else {
                (Some(title), Some(artist))
            }
        },
    }
}

/// The first index at or after `from` whose word answers to a wake word.
fn find_wake(words: &Vec<Vec<char>>, wake_words: &WakeWords) -> (r: Option<usize>)
    ensures
        r matches Some(i) ==> first_wake_from(views(words@), 0, wake_words@) == Some(i as int),
        r is None ==> first_wake_from(views(words@), 0, wake_words@) is None,
{
    let mut i: usize = 0;
    while i < words.len()
        invariant
            i <= words.len(),
            first_wake_from(views(words@), 0, wake_words@) == first_wake_from(views(words@), i as int, wake_words@),
        decreases words.len() - i,
    {
        assert(views(words@)[i as int] == words@[i as int]@);
        if wake_words.answers(words[i].as_slice()) {
            return Some(i);
        }
        i = i + 1;
    }
    None
}

/// The first index at or after `from` whose word is "play".
fn find_play(words: &Vec<Vec<char>>, from: usize) -> (r: Option<usize>)
    ensures
        r matches Some(i) ==> first_play_from(views(words@), from as int) == Some(i as int),
        r is None ==> first_play_from(views(words@), from as int) is None,
{
    let play: Vec<char> = vec!['p', 'l', 'a', 'y'];
    assert(play@ =~= play_word());
    let mut i: usize = from;
    while i < words.len()
        invariant
            from <= i,
            play@ == play_word(),
            first_play_from(views(words@), from as int) == first_play_from(views(words@), i as int),
        decreases words.len() - i,
    {
        assert(views(words@)[i as int] == words@[i as int]@);
        if same_chars(words[i].as_slice(), play.as_slice()) {
            return Some(i);
        }
        i = i + 1;
    }
    None
}

impl CommandParser {
    /// A parser answering to the given wake words, compared in lowercase.
    pub fn new(wake_words: Vec<String>) -> (r: CommandParser)
        ensures
            r@ == lowered_words(wake_words@).to_set(),
    {
        CommandParser { wake_words: WakeWords::new(wake_words) }
    }

    /// The wake words this parser accepts.
    pub fn wake_words(&self) -> (r: &WakeWords)
        ensures
            r@ == self@,
    {
        &self.wake_words
    }

    /// Requires a wake word followed by "play <something>".
    ///
    /// Recognizes "play <title> by <artist>" (the artist gets the search bias)
    /// and falls back to the raw text after "play" as the query.
    pub fn parse(&self, transcript: &str) -> (r: Option<PlayRequest>)
        ensures
            match parse_transcript(self@, transcript@) {
                Ok(v) => r matches Some(q) && q@ == v,
                Err(_) => r is None,
            },
    {
        match self.parse_with_reason(transcript) {
            Ok(q) => Some(q),
            Err(_) => None,
        }
    }

    /// Like [`Self::parse`], but reports why the transcript was rejected.
    pub fn parse_with_reason(&self, transcript: &str) -> (r: Result<PlayRequest, ParseMiss>)
        ensures
            outcome_view(r) == parse_transcript(self@, transcript@),
    {
        let t = chars_of(transcript);
        let text = normalize_chars(t.as_slice());
        let words = split_chars(text.as_slice(), ' ');
        let ghost heard = views(words@);
        assert(heard == heard_words(transcript@));
        let wake_at = match find_wake(&words, &self.wake_words) {
            None => return Err(ParseMiss::NoWakeWord),
            Some(i) => i,
        };
        proof {
            lemma_first_wake_in_range(heard, 0, self@);
            assert(heard.len() == words.len());
        }
        let play: Vec<char> = vec!['p', 'l', 'a', 'y'];
        assert(play@ =~= play_word());
        assert(heard[wake_at as int] == words@[wake_at as int]@);
        let play_at = if same_chars(words[wake_at].as_slice(), play.as_slice()) {
            wake_at
        } else {
            match find_play(&words, wake_at + 1) {
                None => return Err(ParseMiss::NoPlayVerb),
                Some(i) => i,
            }
        };
        proof {
            lemma_first_play_in_range(heard, wake_at + 1);
        }
        let mut tail: Vec<Vec<char>> = Vec::new();
        let mut k: usize = play_at + 1;
        while k < words.len()
            invariant
                play_at < words.len(),
                play_at + 1 <= k <= words.len(),
                heard == views(words@),
                views(tail@) == heard.subrange(play_at + 1, k as int),
            decreases words.len() - k,
        {
            let w = slice_chars(words[k].as_slice(), 0, words[k].len());
            assert(w@ =~= words@[k as int]@);
            let ghost prev = tail@;
            tail.push(w);
            assert(views(tail@) =~= views(prev).push(w@));
            assert(heard.subrange(play_at + 1, k + 1) =~= heard.subrange(play_at + 1, k as int).push(heard[k as int]));
            k = k + 1;
        }
        assert(heard.subrange(play_at + 1, words.len() as int) =~= heard.skip(play_at + 1));
        let sep: Vec<char> = vec![' '];
        assert(sep@ =~= space());
        let rest = join_chars(&tail, sep.as_slice());
        if rest.len() == 0 {
            return Err(ParseMiss::EmptyRequest);
        }
        let (title, artist) = split_artist_exec(rest.as_slice());
        let ghost split = split_artist(rest@);
        let ghost expected = request_for(rest@);
        let query = match (&title, &artist) {
            (Some(t), Some(a)) => {
                let mut q: Vec<char> = slice_chars(t.as_slice(), 0, t.len());
                let mut j: usize = 0;
                let ghost base = q@;
                while j < 4
                    invariant
                        j <= 4,
                        q@ == base + by_separator().take(j as int),
                    decreases 4 - j,
                {
                    let c = if j == 0 { ' ' } else if j == 1 { 'b' } else if j == 2 { 'y' } else { ' ' };
                    assert(by_separator()[j as int] == c);
                    q.push(c);
                    assert(by_separator().take(j + 1) =~= by_separator().take(j as int).push(c));
                    j = j + 1;
                }
                assert(by_separator().take(4) =~= by_separator());
                let ghost base2 = q@;
                let mut j: usize = 0;
                while j < a.len()
                    invariant
                        j <= a.len(),
                        q@ == base2 + a@.take(j as int),
                    decreases a.len() - j,
                {
                    q.push(a[j]);
                    assert(a@.take(j + 1) =~= a@.take(j as int).push(a@[j as int]));
                    j = j + 1;
                }
                assert(a@.take(a.len() as int) =~= a@);
                assert(q@ =~= t@ + by_separator() + a@);
                string_of(&q)
            },
            _ => string_of(&rest),
        };
        let title = match title {
            Some(t) => Some(string_of(&t)),
            None => None,
        };
        let artist = match artist {
            Some(a) => Some(string_of(&a)),
            None => None,
        };
        let r = PlayRequest { query, title, artist };
        assert(r@.title == expected.title);
        assert(r@.artist == expected.artist);
        assert(r@.query == expected.query);
        Ok(r)
    }
}

/// A wake word found from `from` on lies at or after `from`.
proof fn lemma_first_wake_in_range(words: Seq<Seq<char>>, from: int, wake_words: Set<Seq<char>>)
    ensures
        first_wake_from(words, from, wake_words) matches Some(i) ==> from <= i < words.len()
            && is_wake_word(words[i], wake_words),
    decreases words.len() - from,
{
    if 0 <= from < words.len() && !is_wake_word(words[from], wake_words) {
        lemma_first_wake_in_range(words, from + 1, wake_words);
    }
}

/// A "play" found from `from` on lies at or after `from`.
proof fn lemma_first_play_in_range(words: Seq<Seq<char>>, from: int)
    ensures
        first_play_from(words, from) matches Some(i) ==> from <= i < words.len() && words[i] == play_word(),
    decreases words.len() - from,
{
    if 0 <= from < words.len() && words[from] != play_word() {
        lemma_first_play_in_range(words, from + 1);
    }
}

} // verus!

verus! {

impl ParseMiss {
    /// A short human-readable reason, as the bot reports it.
    pub fn reason(&self) -> (r: &'static str)
        ensures
            r@ == match self {
                ParseMiss::NoWakeWord => "no wake word heard"@,
                ParseMiss::NoPlayVerb => "no \"play\" after the wake word"@,
                ParseMiss::EmptyRequest => "nothing to play after \"play\""@,
            },
    {
        match self {
            ParseMiss::NoWakeWord => "no wake word heard",
            ParseMiss::NoPlayVerb => "no \"play\" after the wake word",
            ParseMiss::EmptyRequest => "nothing to play after \"play\"",
        }
    }
}

/// The parse of a transcript depends on its ASCII-lowercased form only: transcripts
/// that differ in letter case alone give the same request, or fail for the same reason.
pub proof fn lemma_parse_ignores_case(wake_words: Set<Seq<char>>, t1: Seq<char>, t2: Seq<char>)
    requires
        lower_seq(t1) == lower_seq(t2),
    ensures
        parse_transcript(wake_words, t1) == parse_transcript(wake_words, t2),
{
}

/// The words a transcript normalises to are non-empty, and each of their chars is a
/// letter or digit that lowercasing leaves alone and that is not whitespace.
proof fn lemma_normal_words(t: Seq<char>)
    ensures
        forall|k: int| 0 <= k < normal_words(t).len() ==> #[trigger] normal_words(t)[k].len() > 0,
        forall|k: int, j: int| 0 <= k < normal_words(t).len() && 0 <= j < normal_words(t)[k].len() ==> {
            let c = #[trigger] normal_words(t)[k][j];
            &&& keeps(c)
            &&& alphanumeric(c)
            &&& !white_space(c)
            &&& ascii_lower(c) == c
        },
{
    let p = |c: char| keeps(c);
    let f = lower_seq(t).filter(p);
    let words = normal_words(t);
    lemma_ws_words_shape(f);
    assert forall|k: int, j: int| 0 <= k < words.len() && 0 <= j < words[k].len() implies {
        let c = #[trigger] words[k][j];
        &&& keeps(c)
        &&& alphanumeric(c)
        &&& !white_space(c)
        &&& ascii_lower(c) == c
    } by {
        let c = words[k][j];
        assert(f.contains(c));
        let i = choose|i: int| 0 <= i < f.len() && f[i] == c;
        lemma_filter_elements(lower_seq(t), p, i);
        let m = choose|m: int| 0 <= m < lower_seq(t).len() && lower_seq(t)[m] == c;
        lemma_ascii_lower_twice(t[m]);
    }
}

/// The runs of non-whitespace a transcript normalises to.
pub open spec fn normal_words(t: Seq<char>) -> Seq<Seq<char>> {
    ws_words(lower_seq(t).filter(|c: char| keeps(c)))
}

/// Normalising a normalised transcript changes nothing: its chars are already
/// lowercase letters, digits and single spaces between words.
pub proof fn lemma_normalize_idempotent(t: Seq<char>)
    ensures
        normalize(normalize(t)) == normalize(t),
{
    let p = |c: char| keeps(c);
    let words = normal_words(t);
    let n = normalize(t);
    assert(n == join_with(words, space()));
    lemma_normal_words(t);
    assert forall|i: int| 0 <= i < n.len() implies keeps(#[trigger] n[i]) && ascii_lower(n[i]) == n[i] by {
        lemma_join_chars(words, i);
        if n[i] != ' ' {
            let (k, j) = choose|k: int, j: int|
                0 <= k < words.len() && 0 <= j < words[k].len() && #[trigger] words[k][j] == n[i];
            assert(keeps(words[k][j]));
        }
    }
    assert(lower_seq(n) =~= n);
    lemma_filter_keeps_all(n, p);
    lemma_ws_words_join(words);
}

/// A normalised transcript is single spaces between words of lowercase letters and
/// digits: it starts and ends with a non-space, never has two spaces side by side, and
/// every other char is alphanumeric, not whitespace, and no ASCII capital.
pub proof fn lemma_normalize_shape(t: Seq<char>)
    ensures
        normalize(t).len() > 0 ==> normalize(t)[0] != ' ' && normalize(t)[normalize(t).len() - 1] != ' ',
        forall|i: int| 0 <= i < normalize(t).len() - 1 && #[trigger] normalize(t)[i] == ' '
            ==> normalize(t)[i + 1] != ' ',
        forall|i: int| 0 <= i < normalize(t).len() ==> {
            let c = #[trigger] normalize(t)[i];
            c == ' ' || (alphanumeric(c) && !white_space(c) && !('A' <= c && c <= 'Z'))
        },
{
    let words = normal_words(t);
    let n = normalize(t);
    assert(n == join_with(words, space()));
    lemma_normal_words(t);
    assert forall|k: int, j: int| 0 <= k < words.len() && 0 <= j < words[k].len() implies #[trigger] words[k][j] != ' ' by {
        assert(!white_space(words[k][j]));
    }
    lemma_join_shape(words);
    assert forall|i: int| 0 <= i < n.len() implies {
        let c = #[trigger] n[i];
        c == ' ' || (alphanumeric(c) && !white_space(c) && !('A' <= c && c <= 'Z'))
    } by {
        lemma_join_chars(words, i);
        if n[i] != ' ' {
            let (k, j) = choose|k: int, j: int|
                0 <= k < words.len() && 0 <= j < words[k].len() && #[trigger] words[k][j] == n[i];
            assert(ascii_lower(words[k][j]) == words[k][j]);
            lemma_lowercase_fixed(words[k][j]);
        }
    }
}

/// A transcript and its normal form ask for the same thing: punctuation, letter case
/// and spacing never change what is parsed.
pub proof fn lemma_parse_normal_form(wake_words: Set<Seq<char>>, t: Seq<char>)
    ensures
        parse_transcript(wake_words, normalize(t)) == parse_transcript(wake_words, t),
{
    lemma_normalize_idempotent(t);
}

/// The words heard in a transcript are its normal words, or one empty word when it has
/// none.
proof fn lemma_heard_words(t: Seq<char>)
    ensures
        normal_words(t).len() > 0 ==> heard_words(t) == normal_words(t),
        normal_words(t).len() == 0 ==> heard_words(t) == seq![Seq::<char>::empty()],
{
    let words = normal_words(t);
    lemma_normal_words(t);
    assert(normalize(t) == join_with(words, space()));
    if words.len() > 0 {
        assert forall|k: int, j: int| 0 <= k < words.len() && 0 <= j < words[k].len() implies #[trigger] words[k][j] != ' ' by {
            assert(!white_space(words[k][j]));
        }
        lemma_split_join(words);
    }
}

/// The search for a wake word from `from` finds the first word there that answers to one.
proof fn lemma_first_wake_facts(words: Seq<Seq<char>>, from: int, wake_words: Set<Seq<char>>)
    requires
        0 <= from,
    ensures
        first_wake_from(words, from, wake_words) is None <==> forall|k: int|
            from <= k < words.len() ==> !is_wake_word(#[trigger] words[k], wake_words),
        first_wake_from(words, from, wake_words) matches Some(i) ==> from <= i < words.len()
            && is_wake_word(words[i], wake_words) && forall|k: int|
            from <= k < i ==> !is_wake_word(#[trigger] words[k], wake_words),
    decreases words.len() - from,
{
    if from < words.len() && !is_wake_word(words[from], wake_words) {
        lemma_first_wake_facts(words, from + 1, wake_words);
    }
}

/// The search for "play" from `from` finds the first "play" there.
proof fn lemma_first_play_facts(words: Seq<Seq<char>>, from: int)
    requires
        0 <= from,
    ensures
        first_play_from(words, from) is None <==> forall|k: int| from <= k < words.len() ==> #[trigger] words[k] != play_word(),
        first_play_from(words, from) matches Some(j) ==> from <= j < words.len() && words[j] == play_word()
            && forall|k: int| from <= k < j ==> #[trigger] words[k] != play_word(),
    decreases words.len() - from,
{
    if from < words.len() && words[from] != play_word() {
        lemma_first_play_facts(words, from + 1);
    }
}

/// The first of `words` that answers to a wake word is at `i`.
pub open spec fn first_wake_at(words: Seq<Seq<char>>, i: int, wake_words: Set<Seq<char>>) -> bool {
    &&& 0 <= i < words.len()
    &&& is_wake_word(words[i], wake_words)
    &&& forall|k: int| 0 <= k < i ==> !is_wake_word(#[trigger] words[k], wake_words)
}

/// The verb that goes with the wake word at `i` is at `j`: the wake word itself when it
/// is "play", else the first "play" after it.
pub open spec fn verb_at(words: Seq<Seq<char>>, i: int, j: int) -> bool {
    ||| words[i] == play_word() && j == i
    ||| words[i] != play_word() && i < j < words.len() && words[j] == play_word() && forall|k: int|
        i < k < j ==> #[trigger] words[k] != play_word()
}

/// Positions given by `first_wake_at` and `verb_at` are the ones the parse uses.
proof fn lemma_positions(words: Seq<Seq<char>>, wake_words: Set<Seq<char>>, i: int, j: int)
    requires
        first_wake_at(words, i, wake_words),
    ensures
        wake_position(words, wake_words) == Some(i),
        verb_at(words, i, j) ==> play_position(words, i) == Some(j),
        play_position(words, i) is None <==> words[i] != play_word() && forall|k: int|
            i < k < words.len() ==> #[trigger] words[k] != play_word(),
{
    lemma_first_wake_facts(words, 0, wake_words);
    let w = wake_position(words, wake_words);
    if w is None {
        assert(!is_wake_word(words[i], wake_words));
    }
    let i2 = w->0;
    if i2 < i {
        assert(!is_wake_word(words[i2], wake_words));
    }
    if i2 > i {
        assert(!is_wake_word(words[i], wake_words));
    }
    if words[i] != play_word() {
        lemma_first_play_facts(words, i + 1);
        if verb_at(words, i, j) {
            let p = first_play_from(words, i + 1);
            if p is None {
                assert(words[j] != play_word());
            }
            let j2 = p->0;
            if j2 < j {
                assert(words[j2] != play_word());
            }
            if j2 > j {
                assert(words[j] != play_word());
            }
        }
    }
}

/// A transcript is answered with "no wake word heard" exactly when none of its heard
/// words answers to a wake word.
pub proof fn lemma_no_wake_word(wake_words: Set<Seq<char>>, t: Seq<char>)
    ensures
        parse_transcript(wake_words, t) == Err::<RequestView, ParseMiss>(ParseMiss::NoWakeWord) <==> forall|k: int|
            0 <= k < heard_words(t).len() ==> !is_wake_word(#[trigger] heard_words(t)[k], wake_words),
{
    lemma_first_wake_facts(heard_words(t), 0, wake_words);
}

/// With the first wake word heard at `i`, a transcript is answered with "no play after
/// the wake word" exactly when that word is not "play" and no later word is.
pub proof fn lemma_no_play_verb(wake_words: Set<Seq<char>>, t: Seq<char>, i: int)
    requires
        first_wake_at(heard_words(t), i, wake_words),
    ensures
        parse_transcript(wake_words, t) == Err::<RequestView, ParseMiss>(ParseMiss::NoPlayVerb) <==> heard_words(t)[i]
            != play_word() && forall|k: int| i < k < heard_words(t).len() ==> #[trigger] heard_words(t)[k] != play_word(),
{
    lemma_positions(heard_words(t), wake_words, i, i);
}

/// The heard words after the verb at `j`, joined with single spaces: the request.
pub open spec fn words_after(words: Seq<Seq<char>>, j: int) -> Seq<char> {
    join_with(words.skip(j + 1), space())
}

/// Every heard word after the verb is a non-empty run of chars that are not whitespace.
proof fn lemma_words_after_verb(t: Seq<char>, j: int)
    requires
        0 <= j < heard_words(t).len(),
        heard_words(t)[j] == play_word(),
    ensures
        forall|k: int| 0 <= k < heard_words(t).skip(j + 1).len() ==> #[trigger] heard_words(t).skip(j + 1)[k].len() > 0,
        forall|k: int, m: int| 0 <= k < heard_words(t).skip(j + 1).len() && 0 <= m < heard_words(t).skip(j + 1)[k].len()
            ==> !white_space(#[trigger] heard_words(t).skip(j + 1)[k][m]),
{
    lemma_heard_words(t);
    lemma_normal_words(t);
    let words = heard_words(t);
    if normal_words(t).len() == 0 {
        assert(words[j].len() == 0);
        assert(play_word().len() == 4);
    }
    let sub = words.skip(j + 1);
    assert forall|k: int| 0 <= k < sub.len() implies #[trigger] sub[k].len() > 0 by {
        assert(sub[k] == normal_words(t)[j + 1 + k]);
    }
    assert forall|k: int, m: int| 0 <= k < sub.len() && 0 <= m < sub[k].len() implies !white_space(#[trigger] sub[k][m]) by {
        assert(sub[k] == normal_words(t)[j + 1 + k]);
        assert(normal_words(t)[j + 1 + k][m] == sub[k][m]);
    }
}

/// With the first wake word heard at `i` and its verb at `j`, a transcript is answered
/// with "nothing to play after play" exactly when the verb is the last heard word.
pub proof fn lemma_empty_request(wake_words: Set<Seq<char>>, t: Seq<char>, i: int, j: int)
    requires
        first_wake_at(heard_words(t), i, wake_words),
        verb_at(heard_words(t), i, j),
    ensures
        parse_transcript(wake_words, t) == Err::<RequestView, ParseMiss>(ParseMiss::EmptyRequest) <==> j
            == heard_words(t).len() - 1,
{
    let words = heard_words(t);
    lemma_positions(words, wake_words, i, j);
    lemma_words_after_verb(t, j);
    let sub = words.skip(j + 1);
    assert forall|k: int, m: int| 0 <= k < sub.len() && 0 <= m < sub[k].len() implies #[trigger] sub[k][m] != ' ' by {
        assert(!white_space(sub[k][m]));
    }
    lemma_join_shape(sub);
    if j == words.len() - 1 {
        assert(sub =~= Seq::<Seq<char>>::empty());
    }
}

/// A request text as normalising leaves it: no space at either end, no two spaces side
/// by side, and no other whitespace.
spec fn single_spaced(r: Seq<char>) -> bool {
    &&& r.len() > 0 ==> r[0] != ' ' && r[r.len() - 1] != ' '
    &&& forall|k: int| 0 <= k < r.len() - 1 && #[trigger] r[k] == ' ' ==> r[k + 1] != ' '
    &&& forall|k: int| 0 <= k < r.len() ==> #[trigger] r[k] == ' ' || !white_space(r[k])
}

/// A single-spaced request splits at its last " by " into the text before and after it,
/// with nothing trimmed; with no " by " it does not split.
proof fn lemma_split_single_spaced(r: Seq<char>)
    requires
        single_spaced(r),
    ensures
        split_artist(r) == (match rfind(r, by_separator()) {
            Some(b) => (Some(r.take(b)), Some(r.skip(b + 4))),
            None => (None, None),
        }),
        rfind(r, by_separator()) matches Some(b) ==> r.take(b) + by_separator() + r.skip(b + 4) == r,
{
    let by = by_separator();
    lemma_rfind_none(r, by);
    match rfind(r, by) {
        None => {},
        Some(b) => {
            assert(occurs_at(r, by, b));
            assert(r.subrange(b, b + 4) == by);
            assert(r[b] == r.subrange(b, b + 4)[0]);
            assert(r[b + 3] == r.subrange(b, b + 4)[3]);
            assert(r[b] == ' ' && r[b + 3] == ' ');
            assert(b >= 1);
            assert(r[b - 1] != ' ');
            assert(b + 3 < r.len() - 1);
            assert(r[b + 4] != ' ');
            let title = r.take(b);
            let tail = r.skip(b + 4);
            assert(title[0] == r[0]);
            assert(title[title.len() - 1] == r[b - 1]);
            lemma_trim_unchanged(title);
            assert(tail[0] == r[b + 4]);
            assert(tail[tail.len() - 1] == r[r.len() - 1]);
            lemma_trim_unchanged(tail);
            assert(occurs_at(r.skip(b), by, 0)) by {
                assert(r.skip(b).subrange(0, 4) =~= r.subrange(b, b + 4));
            }
            assert(r.skip(b).skip(4) =~= tail);
            assert(!occurs_at(tail, by, 0)) by {
                if occurs_at(tail, by, 0) {
                    assert(tail.subrange(0, 4)[0] == tail[0]);
                }
            }
            assert(trim_start_matches(tail, by) == tail);
            assert(trim_start_matches(r.skip(b), by) == trim_start_matches(tail, by));
            assert(title + by + tail =~= r);
        },
    }
}

/// With the first wake word heard at `i`, its verb at `j`, and words after the verb, a
/// transcript asks for those words joined with spaces. When they hold " by ", the title
/// is what comes before its last occurrence and the artist what comes after it;
/// otherwise there is neither.
pub proof fn lemma_request(wake_words: Set<Seq<char>>, t: Seq<char>, i: int, j: int)
    requires
        first_wake_at(heard_words(t), i, wake_words),
        verb_at(heard_words(t), i, j),
        j + 1 < heard_words(t).len(),
    ensures
        ({
            let rest = words_after(heard_words(t), j);
            parse_transcript(wake_words, t) == Ok::<RequestView, ParseMiss>(
                RequestView {
                    query: rest,
                    title: match rfind(rest, by_separator()) {
                        Some(b) => Some(rest.take(b)),
                        None => None,
                    },
                    artist: match rfind(rest, by_separator()) {
                        Some(b) => Some(rest.skip(b + 4)),
                        None => None,
                    },
                },
            )
        }),
{
    let words = heard_words(t);
    lemma_positions(words, wake_words, i, j);
    lemma_words_after_verb(t, j);
    let sub = words.skip(j + 1);
    let rest = words_after(words, j);
    assert forall|k: int, m: int| 0 <= k < sub.len() && 0 <= m < sub[k].len() implies #[trigger] sub[k][m] != ' ' by {
        assert(!white_space(sub[k][m]));
    }
    lemma_join_shape(sub);
    assert forall|k: int| 0 <= k < rest.len() implies #[trigger] rest[k] == ' ' || !white_space(rest[k]) by {
        lemma_join_chars(sub, k);
        if rest[k] != ' ' {
            let (a, m) = choose|a: int, m: int| 0 <= a < sub.len() && 0 <= m < sub[a].len() && #[trigger] sub[a][m] == rest[k];
            assert(!white_space(sub[a][m]));
        }
    }
    assert(single_spaced(rest));
    lemma_split_single_spaced(rest);
    assert(sub.len() > 0);
}

/// One word in normal form: lowercased, with every char that is not a letter or digit
/// dropped.
pub open spec fn word_form(w: Seq<char>) -> Seq<char> {
    lower_seq(w).filter(|c: char| alphanumeric(c))
}

/// Words in normal form, empty ones dropped.
pub open spec fn forms(words: Seq<Seq<char>>) -> Seq<Seq<char>> {
    words.map_values(|w: Seq<char>| word_form(w)).filter(|w: Seq<char>| w.len() > 0)
}

/// The lowercased, kept chars of a transcript.
spec fn kept_chars(t: Seq<char>) -> Seq<char> {
    lower_seq(t).filter(|c: char| keeps(c))
}

proof fn lemma_filter_push<A>(s: Seq<A>, x: A, p: spec_fn(A) -> bool)
    ensures
        s.push(x).filter(p) == (if p(x) { s.filter(p).push(x) } else { s.filter(p) }),
{
    reveal_with_fuel(Seq::filter, 1);
    assert(s.push(x).drop_last() =~= s);
}

proof fn lemma_lower_push(s: Seq<char>, c: char)
    ensures
        lower_seq(s.push(c)) == lower_seq(s).push(ascii_lower(c)),
{
    assert(lower_seq(s.push(c)) =~= lower_seq(s).push(ascii_lower(c)));
}

/// Lowercasing never changes whether a char is whitespace.
proof fn lemma_lower_keeps_space(c: char)
    ensures
        white_space(ascii_lower(c)) == white_space(c),
{
    if 'A' <= c && c <= 'Z' {
        assert(((c as u32) + 32) as char as int == c as int + 32);
    }
}

proof fn lemma_word_form_push(w: Seq<char>, c: char)
    ensures
        word_form(w.push(c)) == (if alphanumeric(ascii_lower(c)) {
            word_form(w).push(ascii_lower(c))
        } else {
            word_form(w)
        }),
{
    lemma_lower_push(w, c);
    lemma_filter_push(lower_seq(w), ascii_lower(c), |c: char| alphanumeric(c));
}

proof fn lemma_forms_push(words: Seq<Seq<char>>, w: Seq<char>)
    ensures
        forms(words.push(w)) == (if word_form(w).len() > 0 {
            forms(words).push(word_form(w))
        } else {
            forms(words)
        }),
{
    let m = words.map_values(|w: Seq<char>| word_form(w));
    assert(words.push(w).map_values(|w: Seq<char>| word_form(w)) =~= m.push(word_form(w)));
    lemma_filter_push(m, word_form(w), |w: Seq<char>| w.len() > 0);
}

proof fn lemma_kept_push(t: Seq<char>, c: char)
    ensures
        kept_chars(t.push(c)) == (if keeps(ascii_lower(c)) {
            kept_chars(t).push(ascii_lower(c))
        } else {
            kept_chars(t)
        }),
{
    lemma_lower_push(t, c);
    lemma_filter_push(lower_seq(t), ascii_lower(c), |c: char| keeps(c));
}

proof fn lemma_ws_words_push(y: Seq<char>, c: char)
    ensures
        ws_words(y.push(c)) == (if white_space(c) {
            ws_words(y)
        } else if y.len() > 0 && !white_space(y.last()) {
            ws_words(y).update(ws_words(y).len() - 1, ws_words(y).last().push(c))
        } else {
            ws_words(y).push(seq![c])
        }),
{
    assert(y.push(c).drop_last() =~= y);
}

/// The kept chars of a transcript split into its words in normal form, and they end
/// inside a word exactly when the transcript ends inside a word whose normal form is
/// not empty.
proof fn lemma_kept_words(t: Seq<char>)
    ensures
        ws_words(kept_chars(t)) == forms(ws_words(t)),
        (kept_chars(t).len() > 0 && !white_space(kept_chars(t).last())) <==> (t.len() > 0 && !white_space(t.last())
            && word_form(ws_words(t).last()).len() > 0),
    decreases t.len(),
{
    if t.len() == 0 {
        assert(kept_chars(t) =~= Seq::<char>::empty()) by {
            reveal_with_fuel(Seq::filter, 1);
        }
        assert(forms(ws_words(t)) =~= Seq::<Seq<char>>::empty()) by {
            reveal_with_fuel(Seq::filter, 1);
        }
    } else {
        let p = t.drop_last();
        let c = t.last();
        let l = ascii_lower(c);
        assert(p.push(c) =~= t);
        lemma_kept_words(p);
        lemma_kept_push(p, c);
        lemma_lower_keeps_space(c);
        lemma_word_form_push(seq![], c);
        lemma_ws_words_push(p, c);
        lemma_ws_words_shape(p);
        let fp = kept_chars(p);
        let w = ws_words(p);
        if white_space(c) {
            lemma_ws_words_push_space(fp, l);
        } else if p.len() > 0 && !white_space(p.last()) {
            let front = w.drop_last();
            let x = w.last();
            assert(w =~= front.push(x));
            assert(w.update(w.len() - 1, x.push(c)) =~= front.push(x.push(c)));
            lemma_word_form_push(x, c);
            lemma_forms_push(front, x);
            lemma_forms_push(front, x.push(c));
            if alphanumeric(l) {
                lemma_ws_words_push(fp, l);
                if fp.len() > 0 && !white_space(fp.last()) {
                    let g = forms(front);
                    assert(forms(w) == g.push(word_form(x)));
                    assert(g.push(word_form(x)).update(g.len() as int, word_form(x).push(l)) =~= g.push(
                        word_form(x).push(l),
                    ));
                } else {
                    assert(word_form(x).len() == 0);
                    assert(word_form(x).push(l) =~= seq![l]);
                }
            }
        } else {
            assert(ws_words(t) == w.push(seq![c]));
            lemma_forms_push(w, seq![c]);
            assert(seq![c] =~= Seq::<char>::empty().push(c));
            if alphanumeric(l) {
                lemma_ws_words_push(fp, l);
                assert(word_form(Seq::<char>::empty()) =~= Seq::<char>::empty()) by {
                    reveal_with_fuel(Seq::filter, 1);
                }
                assert(word_form(seq![c]) =~= seq![l]);
            } else {
                assert(word_form(Seq::<char>::empty()) =~= Seq::<char>::empty()) by {
                    reveal_with_fuel(Seq::filter, 1);
                }
            }
        }
    }
}

/// A transcript's normal form is its whitespace-separated words, each lowercased and
/// stripped of what is not a letter or digit, the empty ones dropped, joined with single
/// spaces.
pub proof fn lemma_normalize_word_by_word(t: Seq<char>)
    ensures
        normalize(t) == join_with(forms(ws_words(t)), space()),
{
    lemma_kept_words(t);
    assert(normalize(t) == join_with(ws_words(kept_chars(t)), space()));
}

/// A wake word of at most four letters answers only to itself: ordinary speech one letter
/// away ("not", "boy" for "bot") never wakes the bot.
pub proof fn lemma_short_wake_word_is_exact(heard: Seq<char>, wake: Seq<char>)
    requires
        wake.len() <= 4,
        hears_wake_word(heard, wake),
    ensures
        heard == wake,
{
}

/// A wake word longer than four letters still answers when one of its letters is
/// misheard, dropped, or joined by an extra one.
pub proof fn lemma_long_wake_word_tolerates_one_edit(wake: Seq<char>, i: int, x: char)
    requires
        wake.len() > 4,
        0 <= i < wake.len(),
    ensures
        hears_wake_word(wake.update(i, x), wake),
        hears_wake_word(wake.remove(i), wake),
        hears_wake_word(wake.insert(i, x), wake),
{
    let a = wake.update(i, x);
    if x != wake[i] {
        assert(a.update(i, wake[i]) =~= wake);
        assert(a[i] != wake[i]);
    } else {
        assert(a =~= wake);
    }
    let d = wake.remove(i);
    assert(wake.remove(i) == d);
    let n = wake.insert(i, x);
    assert(n.remove(i) =~= wake);
}

/// With only wake words of at most four letters, a transcript none of whose heard words
/// is one of them is answered with "no wake word heard".
pub proof fn lemma_short_wake_words_need_the_exact_word(wake_words: Set<Seq<char>>, t: Seq<char>)
    requires
        forall|w: Seq<char>| wake_words.contains(w) ==> w.len() <= 4,
        forall|k: int| 0 <= k < heard_words(t).len() ==> !wake_words.contains(#[trigger] heard_words(t)[k]),
    ensures
        parse_transcript(wake_words, t) == Err::<RequestView, ParseMiss>(ParseMiss::NoWakeWord),
{
    let heard = heard_words(t);
    assert forall|k: int| 0 <= k < heard.len() implies !is_wake_word(#[trigger] heard[k], wake_words) by {
        if is_wake_word(heard[k], wake_words) {
            let w = choose|w: Seq<char>| wake_words.contains(w) && #[trigger] hears_wake_word(heard[k], w);
            lemma_short_wake_word_is_exact(heard[k], w);
        }
    }
    lemma_no_wake_word(wake_words, t);
}

/// A heard word answers to a wake word only when it is at most one char longer or
/// shorter, and, at the same length, differs from it in at most one place: where it
/// differs at one place, it agrees everywhere else.
pub proof fn lemma_wake_word_tolerance_is_one_char(heard: Seq<char>, wake: Seq<char>)
    requires
        hears_wake_word(heard, wake),
    ensures
        heard.len() <= wake.len() + 1 && wake.len() <= heard.len() + 1,
        heard.len() == wake.len() ==> forall|i: int, j: int|
            #![trigger heard[i], heard[j]]
            0 <= i < heard.len() && 0 <= j < heard.len() && i != j && heard[i] != wake[i] ==> heard[j] == wake[j],
{
    if heard != wake && heard.len() == wake.len() {
        let k = choose|k: int| 0 <= k < heard.len() && heard[k] != wake[k] && #[trigger] heard.update(k, wake[k]) == wake;
        assert forall|i: int, j: int|
            #![trigger heard[i], heard[j]]
            0 <= i < heard.len() && 0 <= j < heard.len() && i != j && heard[i] != wake[i] implies heard[j] == wake[j] by {
            assert(heard.update(k, wake[k])[i] == wake[i]);
            assert(heard.update(k, wake[k])[j] == wake[j]);
        }
    }
}

} // verus!
