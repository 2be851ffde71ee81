//! Character- and string-level helpers shared by the parsers.
use vstd::prelude::*;

verus! {

/// `char::to_ascii_lowercase`: maps `A`..=`Z` to `a`..=`z`, leaves every other char alone.
pub open spec fn ascii_lower(c: char) -> char {
    if 'A' <= c && c <= 'Z' {
        ((c as u32) + 32) as char
    } else {
        c
    }
}

/// Lowercasing a lowercased char changes nothing.
pub proof fn lemma_ascii_lower_twice(c: char)
    ensures
        ascii_lower(ascii_lower(c)) == ascii_lower(c),
{
    if 'A' <= c && c <= 'Z' {
        assert(((c as u32) + 32) as char as int == c as int + 32);
    }
}

/// A char that lowercasing leaves alone is no ASCII capital.
pub proof fn lemma_lowercase_fixed(c: char)
    requires
        ascii_lower(c) == c,
    ensures
        !('A' <= c && c <= 'Z'),
{
    if 'A' <= c && c <= 'Z' {
        assert(((c as u32) + 32) as char as int == c as int + 32);
    }
}

/// Lowercases one char the way `char::to_ascii_lowercase` does.
pub fn lower_char(c: char) -> (r: char)
    ensures
        r == ascii_lower(c),
{
    if 'A' <= c && c <= 'Z' {
        let code: u8 = c as u8;
        assert(code as int == c as int);
        (code + 32) as char
    } else {
        c
    }
}

} // verus!

verus! {

/// `String::push` appends one char to the end of the string.
pub assume_specification[ String::push ](s: &mut String, ch: char)
    ensures
        final(s)@ == old(s)@.push(ch),
;

/// The chars of a string slice, in order.
pub fn chars_of(s: &str) -> (v: Vec<char>)
    ensures
        v@ == s@,
{
    broadcast use vstd::string::group_string_axioms;
    let mut v: Vec<char> = Vec::new();
    for c in it: s.chars()
        invariant
            v@ == it.seq().take(it.index() as int),
    {
        v.push(c);
    }
    v
}

/// A string holding exactly the given chars.
pub fn string_of(v: &Vec<char>) -> (s: String)
    ensures
        s@ == v@,
{
    let mut s = String::new();
    for i in 0..v.len()
        invariant
            s@ == v@.take(i as int),
    {
        s.push(v[i]);
        assert(v@.take(i + 1) == v@.take(i as int).push(v@[i as int]));
    }
    assert(v@.take(v.len() as int) == v@);
    s
}

} // verus!

verus! {

/// Whether a char has Unicode's `White_Space` property, the property `char::is_whitespace`
/// tests. The Unicode Character Database (`PropList.txt`) gives it to exactly these code
/// points: U+0009 to U+000D, U+0020, U+0085, U+00A0, U+1680, U+2000 to U+200A, U+2028,
/// U+2029, U+202F, U+205F and U+3000.
pub open spec fn white_space(c: char) -> bool {
    ||| '\u{9}' <= c && c <= '\u{d}'
    ||| c == ' '
    ||| c == '\u{85}'
    ||| c == '\u{a0}'
    ||| c == '\u{1680}'
    ||| '\u{2000}' <= c && c <= '\u{200a}'
    ||| c == '\u{2028}'
    ||| c == '\u{2029}'
    ||| c == '\u{202f}'
    ||| c == '\u{205f}'
    ||| c == '\u{3000}'
}

/// Whether a char is alphabetic or numeric in Unicode, as `char::is_alphanumeric` decides.
pub uninterp spec fn unicode_alphanumeric(c: char) -> bool;

/// Whether a char is alphanumeric: among ASCII chars exactly the letters and digits (the
/// ASCII chars with the `Alphabetic` property or a numeric general category); beyond
/// ASCII, as Unicode's tables say.
pub open spec fn alphanumeric(c: char) -> bool {
    if c <= '\u{7f}' {
        ('a' <= c && c <= 'z') || ('A' <= c && c <= 'Z') || ('0' <= c && c <= '9')
    } else {
        unicode_alphanumeric(c)
    }
}

/// `char::is_whitespace`: whether the char has Unicode's `White_Space` property, which
/// the Unicode Character Database lists as the code points of [`white_space`].
#[verifier::external_body]
pub(crate) fn char_is_whitespace(c: char) -> (b: bool)
    ensures
        b == white_space(c),
{
    c.is_whitespace()
}

/// `char::is_alphanumeric`: whether the char is `Alphabetic` or has a numeric general
/// category (`Nd`, `Nl`, `No`). Its result is named by `unicode_alphanumeric`; the one
/// fact stated beside the name is the ASCII part of those tables, where exactly the
/// letters and digits qualify. The tables beyond ASCII are not written out here.
#[verifier::external_body]
pub(crate) fn char_is_alphanumeric(c: char) -> (b: bool)
    ensures
        b == unicode_alphanumeric(c),
        c <= '\u{7f}' ==> (b <==> (('a' <= c && c <= 'z') || ('A' <= c && c <= 'Z') || ('0' <= c && c <= '9'))),
{
    c.is_alphanumeric()
}

/// `s` with its leading whitespace removed (`str::trim_start`).
pub open spec fn trim_start(s: Seq<char>) -> Seq<char>
    decreases s.len(),
{
    if s.len() > 0 && white_space(s[0]) {
        trim_start(s.drop_first())
    } else {
        s
    }
}

/// `s` with its trailing whitespace removed (`str::trim_end`).
pub open spec fn trim_end(s: Seq<char>) -> Seq<char>
    decreases s.len(),
{
    if s.len() > 0 && white_space(s.last()) {
        trim_end(s.drop_last())
    } else {
        s
    }
}

/// `s` with whitespace removed from both ends (`str::trim`).
pub open spec fn trim(s: Seq<char>) -> Seq<char> {
    trim_end(trim_start(s))
}

/// The pieces of `s` between occurrences of `sep` (`str::split` with a char):
/// `n` separators always give `n + 1` pieces, empty ones included.
pub open spec fn split_on(s: Seq<char>, sep: char) -> Seq<Seq<char>>
    decreases s.len(),
{
    if s.len() == 0 {
        seq![Seq::<char>::empty()]
    } else {
        let prev = split_on(s.drop_last(), sep);
        if s.last() == sep {
            prev.push(Seq::<char>::empty())
        } else {
            prev.update(prev.len() - 1, prev.last().push(s.last()))
        }
    }
}

/// The maximal runs of non-whitespace chars of `s`, in order (`str::split_whitespace`).
pub open spec fn ws_words(s: Seq<char>) -> Seq<Seq<char>>
    decreases s.len(),
{
    if s.len() == 0 {
        Seq::<Seq<char>>::empty()
    } else {
        let prev = ws_words(s.drop_last());
        let c = s.last();
        if white_space(c) {
            prev
        } else if s.len() > 1 && !white_space(s.drop_last().last()) {
            prev.update(prev.len() - 1, prev.last().push(c))
        } else {
            prev.push(seq![c])
        }
    }
}

/// The pieces joined with `sep` between neighbours (`[&str]::join`).
pub open spec fn join_with(pieces: Seq<Seq<char>>, sep: Seq<char>) -> Seq<char>
    decreases pieces.len(),
{
    if pieces.len() == 0 {
        Seq::<char>::empty()
    } else if pieces.len() == 1 {
        pieces[0]
    } else {
        join_with(pieces.drop_last(), sep) + sep + pieces.last()
    }
}

/// The char sequences held by a vector of char vectors.
pub open spec fn views(v: Seq<Vec<char>>) -> Seq<Seq<char>> {
    v.map_values(|w: Vec<char>| w@)
}

/// The single space `" "`.
pub open spec fn space() -> Seq<char> {
    seq![' ']
}

/// Whether `pat` occurs in `s` starting at index `i`.
pub open spec fn occurs_at(s: Seq<char>, pat: Seq<char>, i: int) -> bool {
    0 <= i && i + pat.len() <= s.len() && s.subrange(i, i + pat.len()) == pat
}

/// Whether `pat` occurs anywhere in `s` (`str::contains`).
pub open spec fn contains_text(s: Seq<char>, pat: Seq<char>) -> bool {
    exists|i: int| occurs_at(s, pat, i)
}

/// The start of the last occurrence of `pat` in `s` at or before `i` (`str::rfind`).
pub open spec fn rfind_from(s: Seq<char>, pat: Seq<char>, i: int) -> Option<int>
    decreases i + 1,
{
    if i < 0 {
        None
    } else if occurs_at(s, pat, i) {
        Some(i)
    } else {
        rfind_from(s, pat, i - 1)
    }
}

/// The start of the last occurrence of `pat` in `s` (`str::rfind`).
pub open spec fn rfind(s: Seq<char>, pat: Seq<char>) -> Option<int> {
    rfind_from(s, pat, s.len() - pat.len())
}

/// `s` with every leading copy of a non-empty `pat` removed (`str::trim_start_matches`).
pub open spec fn trim_start_matches(s: Seq<char>, pat: Seq<char>) -> Seq<char>
    decreases s.len(),
{
    if pat.len() > 0 && occurs_at(s, pat, 0) {
        trim_start_matches(s.skip(pat.len() as int), pat)
    } else {
        s
    }
}

/// The ASCII-lowercased chars of `s` (`str::to_ascii_lowercase`).
pub open spec fn lower_seq(s: Seq<char>) -> Seq<char> {
    s.map_values(|c: char| ascii_lower(c))
}

/// Lowercasing a lowercased text changes nothing.
pub proof fn lemma_lower_idempotent(s: Seq<char>)
    ensures
        lower_seq(lower_seq(s)) == lower_seq(s),
{
    assert forall|i: int| 0 <= i < s.len() implies ascii_lower(ascii_lower(s[i])) == ascii_lower(s[i]) by {
        lemma_ascii_lower_twice(s[i]);
    }
    assert(lower_seq(lower_seq(s)) =~= lower_seq(s));
}

} // verus!

verus! {

/// Whether two char sequences are equal.
pub fn same_chars(a: &[char], b: &[char]) -> (r: bool)
    ensures
        r == (a@ == b@),
{
    if a.len() != b.len() {
        return false;
    }
    let mut i: usize = 0;
    while i < a.len()
        invariant
            a.len() == b.len(),
            i <= a.len(),
            forall|j: int| 0 <= j < i ==> a@[j] == b@[j],
        decreases a.len() - i,
    {
        if a[i] != b[i] {
            return false;
        }
        i = i + 1;
    }
    assert(a@ =~= b@);
    true
}

/// The ASCII-lowercased chars of `s`.
pub fn lower_chars(s: &[char]) -> (r: Vec<char>)
    ensures
        r@ == lower_seq(s@),
{
    let mut r: Vec<char> = Vec::new();
    for i in 0..s.len()
        invariant
            r@ == lower_seq(s@.take(i as int)),
    {
        let c = lower_char(s[i]);
        r.push(c);
        assert(lower_seq(s@.take(i + 1)) =~= lower_seq(s@.take(i as int)).push(c));
    }
    assert(s@.take(s.len() as int) =~= s@);
    r
}

proof fn lemma_trim_start_skip(s: Seq<char>, i: int)
    requires
        0 <= i < s.len(),
        white_space(s[i]),
    ensures
        trim_start(s.skip(i)) == trim_start(s.skip(i + 1)),
{
    assert(s.skip(i).drop_first() =~= s.skip(i + 1));
}

proof fn lemma_trim_end_take(s: Seq<char>, j: int)
    requires
        0 < j <= s.len(),
        white_space(s[j - 1]),
    ensures
        trim_end(s.take(j)) == trim_end(s.take(j - 1)),
{
    assert(s.take(j).drop_last() =~= s.take(j - 1));
}

/// `s` with whitespace removed from both ends.
pub fn trim_chars(s: &[char]) -> (r: Vec<char>)
    ensures
        r@ == trim(s@),
{
    let mut i: usize = 0;
    assert(s@.skip(0) =~= s@);
    while i < s.len() && char_is_whitespace(s[i])
        invariant
            i <= s.len(),
            trim_start(s@) == trim_start(s@.skip(i as int)),
        decreases s.len() - i,
    {
        proof {
            lemma_trim_start_skip(s@, i as int);
        }
        i = i + 1;
    }
    let ghost front = s@.skip(i as int);
    assert(trim_start(s@) == front) by {
        assert(s@.skip(i as int).len() == 0 || !white_space(s@.skip(i as int)[0]));
    }
    let mut j: usize = s.len();
    while j > i && char_is_whitespace(s[j - 1])
        invariant
            i <= j <= s.len(),
            front == s@.skip(i as int),
            trim_end(front) == trim_end(s@.subrange(i as int, j as int)),
        decreases j,
    {
        proof {
            let t = s@.subrange(i as int, j as int);
            assert(t.drop_last() =~= s@.subrange(i as int, j - 1));
        }
        j = j - 1;
    }
    let mut r: Vec<char> = Vec::new();
    let mut k: usize = i;
    while k < j
        invariant
            i <= k <= j <= s.len(),
            r@ == s@.subrange(i as int, k as int),
        decreases j - k,
    {
        r.push(s[k]);
        assert(s@.subrange(i as int, k + 1) =~= s@.subrange(i as int, k as int).push(s@[k as int]));
        k = k + 1;
    }
    assert(trim_end(s@.subrange(i as int, j as int)) == s@.subrange(i as int, j as int));
    r
}

/// The pieces of `s` between occurrences of `sep`.
pub fn split_chars(s: &[char], sep: char) -> (r: Vec<Vec<char>>)
    ensures
        views(r@) == split_on(s@, sep),
{
    let mut words: Vec<Vec<char>> = Vec::new();
    let mut cur: Vec<char> = Vec::new();
    assert(s@.take(0) =~= Seq::<char>::empty());
    assert(views(words@).push(cur@) =~= split_on(s@.take(0), sep));
    for i in 0..s.len()
        invariant
            views(words@).push(cur@) == split_on(s@.take(i as int), sep),
    {
        let c = s[i];
        assert(s@.take(i + 1).drop_last() =~= s@.take(i as int));
        if c == sep {
            let done = cur;
            words.push(done);
            cur = Vec::new();
            assert(views(words@).push(cur@) =~= split_on(s@.take(i + 1), sep));
        } else {
            let ghost before = views(words@);
            cur.push(c);
            assert(views(words@) =~= before);
            assert(views(words@).push(cur@) =~= split_on(s@.take(i + 1), sep));
        }
    }
    assert(s@.take(s.len() as int) =~= s@);
    let ghost before = views(words@);
    words.push(cur);
    assert(views(words@) =~= before.push(cur@));
    words
}

/// The maximal runs of non-whitespace chars of `s`.
pub fn whitespace_words(s: &[char]) -> (r: Vec<Vec<char>>)
    ensures
        views(r@) == ws_words(s@),
{
    let mut words: Vec<Vec<char>> = Vec::new();
    let mut cur: Vec<char> = Vec::new();
    assert(s@.take(0) =~= Seq::<char>::empty());
    for i in 0..s.len()
        invariant
            cur.len() > 0 <==> (i > 0 && !white_space(s@[i - 1])),
            ws_words(s@.take(i as int)) == (if cur.len() == 0 {
                views(words@)
            } else {
                views(words@).push(cur@)
            }),
    {
        let c = s[i];
        let t = Ghost(s@.take(i + 1));
        assert(t@.drop_last() =~= s@.take(i as int));
        assert(t@.last() == c);
        if char_is_whitespace(c) {
            if cur.len() > 0 {
                let done = cur;
                words.push(done);
                cur = Vec::new();
            }
            assert(ws_words(t@) =~= views(words@));
        } else {
            let ghost before = views(words@);
            if cur.len() > 0 {
                assert(t@.drop_last().last() == s@[i - 1]);
                cur.push(c);
            } else {
                cur.push(c);
                assert(cur@ =~= seq![c]);
            }
            assert(views(words@) =~= before);
            assert(ws_words(t@) =~= views(words@).push(cur@));
        }
    }
    assert(s@.take(s.len() as int) =~= s@);
    if cur.len() > 0 {
        let ghost before = views(words@);
        words.push(cur);
        assert(views(words@) =~= before.push(cur@));
    }
    words
}

/// The pieces joined with `sep` between neighbours.
pub fn join_chars(pieces: &Vec<Vec<char>>, sep: &[char]) -> (r: Vec<char>)
    ensures
        r@ == join_with(views(pieces@), sep@),
{
    let mut r: Vec<char> = Vec::new();
    assert(views(pieces@).take(0) =~= Seq::<Seq<char>>::empty());
    for i in 0..pieces.len()
        invariant
            r@ == join_with(views(pieces@).take(i as int), sep@),
    {
        let ghost t = views(pieces@).take(i + 1);
        assert(t.drop_last() =~= views(pieces@).take(i as int));
        if i > 0 {
            let mut k: usize = 0;
            let ghost base = r@;
            while k < sep.len()
                invariant
                    k <= sep.len(),
                    r@ == base + sep@.take(k as int),
                decreases sep.len() - k,
            {
                r.push(sep[k]);
                assert(sep@.take(k + 1) =~= sep@.take(k as int).push(sep@[k as int]));
                k = k + 1;
            }
            assert(sep@.take(sep.len() as int) =~= sep@);
        }
        let piece = &pieces[i];
        let ghost base2 = r@;
        let mut k: usize = 0;
        while k < piece.len()
            invariant
                k <= piece.len(),
                r@ == base2 + piece@.take(k as int),
            decreases piece.len() - k,
        {
            r.push(piece[k]);
            assert(piece@.take(k + 1) =~= piece@.take(k as int).push(piece@[k as int]));
            k = k + 1;
        }
        assert(piece@.take(piece.len() as int) =~= piece@);
        assert(views(pieces@)[i as int] == piece@);
        assert(join_with(t, sep@) =~= r@);
    }
    assert(views(pieces@).take(pieces.len() as int) =~= views(pieces@));
    r
}

} // verus!

verus! {

/// Whether `pat` occurs in `s` starting at index `i`.
pub fn occurs_at_exec(s: &[char], pat: &[char], i: usize) -> (r: bool)
    ensures
        r == occurs_at(s@, pat@, i as int),
{
    if pat.len() > s.len() || i > s.len() - pat.len() {
        return false;
    }
    let mut k: usize = 0;
    while k < pat.len()
        invariant
            i + pat.len() <= s.len(),
            k <= pat.len(),
            forall|j: int| 0 <= j < k ==> s@[i + j] == pat@[j],
        decreases pat.len() - k,
    {
        if s[i + k] != pat[k] {
            assert(s@.subrange(i as int, i + pat.len())[k as int] != pat@[k as int]);
            return false;
        }
        k = k + 1;
    }
    assert(s@.subrange(i as int, i + pat.len()) =~= pat@);
    true
}

/// `rfind_from` finds nothing exactly when no occurrence starts at or before `i`.
pub proof fn lemma_rfind_from_none(s: Seq<char>, pat: Seq<char>, i: int)
    ensures
        rfind_from(s, pat, i) is None <==> forall|j: int| 0 <= j <= i ==> !occurs_at(s, pat, j),
        rfind_from(s, pat, i) matches Some(k) ==> 0 <= k <= i && occurs_at(s, pat, k),
    decreases i + 1,
{
    if i >= 0 && !occurs_at(s, pat, i) {
        lemma_rfind_from_none(s, pat, i - 1);
        assert forall|j: int| 0 <= j <= i - 1 implies !occurs_at(s, pat, j) <==> (0 <= j <= i
            ==> !occurs_at(s, pat, j)) by {}
    }
}

/// No occurrence of `pat` starts later than `s.len() - pat.len()`.
pub proof fn lemma_rfind_none(s: Seq<char>, pat: Seq<char>)
    ensures
        rfind(s, pat) is None <==> !contains_text(s, pat),
        rfind(s, pat) matches Some(k) ==> occurs_at(s, pat, k),
{
    lemma_rfind_from_none(s, pat, s.len() - pat.len());
}

/// The start of the last occurrence of `pat` in `s`.
pub fn rfind_chars(s: &[char], pat: &[char]) -> (r: Option<usize>)
    ensures
        r matches Some(i) ==> rfind(s@, pat@) == Some(i as int),
        r is None ==> rfind(s@, pat@) is None,
{
    if pat.len() > s.len() {
        assert(rfind(s@, pat@) is None);
        return None;
    }
    let mut i: usize = s.len() - pat.len();
    loop
        invariant
            pat.len() <= s.len(),
            i <= s.len() - pat.len(),
            rfind(s@, pat@) == rfind_from(s@, pat@, i as int),
        decreases i,
    {
        if occurs_at_exec(s, pat, i) {
            return Some(i);
        }
        if i == 0 {
            assert(rfind_from(s@, pat@, -1) is None);
            return None;
        }
        i = i - 1;
    }
}

/// `s` with every leading copy of a non-empty `pat` removed.
pub fn trim_start_matches_chars(s: &[char], pat: &[char]) -> (r: Vec<char>)
    ensures
        r@ == trim_start_matches(s@, pat@),
{
    let mut i: usize = 0;
    assert(s@.skip(0) =~= s@);
    if pat.len() > 0 {
        while occurs_at_exec(s, pat, i)
            invariant
                pat.len() > 0,
                i <= s.len(),
                trim_start_matches(s@, pat@) == trim_start_matches(s@.skip(i as int), pat@),
            decreases s.len() - i,
        {
            proof {
                assert(occurs_at(s@.skip(i as int), pat@, 0)) by {
                    assert(s@.skip(i as int).subrange(0, pat@.len() as int) =~= s@.subrange(
                        i as int,
                        i + pat.len(),
                    ));
                }
                assert(s@.skip(i as int).skip(pat.len() as int) =~= s@.skip(i + pat.len()));
            }
            i = i + pat.len();
        }
        assert(!occurs_at(s@.skip(i as int), pat@, 0)) by {
            if occurs_at(s@.skip(i as int), pat@, 0) {
                assert(s@.skip(i as int).subrange(0, pat@.len() as int) =~= s@.subrange(
                    i as int,
                    i + pat.len(),
                ));
            }
        }
    }
    let mut r: Vec<char> = Vec::new();
    let mut k: usize = i;
    while k < s.len()
        invariant
            i <= k <= s.len(),
            r@ == s@.subrange(i as int, k as int),
        decreases s.len() - k,
    {
        r.push(s[k]);
        assert(s@.subrange(i as int, k + 1) =~= s@.subrange(i as int, k as int).push(s@[k as int]));
        k = k + 1;
    }
    assert(r@ =~= s@.skip(i as int));
    r
}

/// Whether `pat` occurs anywhere in `s`.
pub fn contains_chars(s: &[char], pat: &[char]) -> (r: bool)
    ensures
        r == contains_text(s@, pat@),
{
    proof {
        lemma_rfind_none(s@, pat@);
    }
    rfind_chars(s, pat).is_some()
}

} // verus!

verus! {

/// The chars of `s` from index `from` up to (not including) `to`.
pub fn slice_chars(s: &[char], from: usize, to: usize) -> (r: Vec<char>)
    requires
        from <= to <= s.len(),
    ensures
        r@ == s@.subrange(from as int, to as int),
{
    let mut r: Vec<char> = Vec::new();
    let mut k: usize = from;
    while k < to
        invariant
            from <= k <= to <= s.len(),
            r@ == s@.subrange(from as int, k as int),
        decreases to - k,
    {
        r.push(s[k]);
        assert(s@.subrange(from as int, k + 1) =~= s@.subrange(from as int, k as int).push(s@[k as int]));
        k = k + 1;
    }
    r
}

/// The string holding the ASCII-lowercased chars of `s`.
pub fn lowercase_string(s: &str) -> (r: String)
    ensures
        r@ == lower_seq(s@),
{
    let cs = chars_of(s);
    let lowered = lower_chars(cs.as_slice());
    string_of(&lowered)
}

} // verus!

verus! {

/// Whether `c` is one of the ASCII digits `0`..=`9`.
pub open spec fn is_digit(c: char) -> bool {
    '0' <= c && c <= '9'
}

/// The ASCII digit for `d` in `0..10`.
pub open spec fn digit_char(d: int) -> char {
    if d == 0 { '0' } else if d == 1 { '1' } else if d == 2 { '2' } else if d == 3 { '3' }
    else if d == 4 { '4' } else if d == 5 { '5' } else if d == 6 { '6' } else if d == 7 { '7' }
    else if d == 8 { '8' } else { '9' }
}

/// The ASCII digit for `d` in `0..10`.
fn digit_char_exec(d: u64) -> (c: char)
    requires
        d < 10,
    ensures
        c == digit_char(d as int),
        is_digit(c),
        c as int - 48 == d,
{
    if d == 0 { '0' } else if d == 1 { '1' } else if d == 2 { '2' } else if d == 3 { '3' }
    else if d == 4 { '4' } else if d == 5 { '5' } else if d == 6 { '6' } else if d == 7 { '7' }
    else if d == 8 { '8' } else { '9' }
}

/// The decimal digits of `n`, most significant first, with no leading zeros.
pub open spec fn decimal(n: nat) -> Seq<char>
    decreases n,
{
    if n < 10 {
        seq![digit_char(n as int)]
    } else {
        decimal(n / 10).push(digit_char((n % 10) as int))
    }
}

/// The value of a run of decimal digits.
pub open spec fn digits_value(s: Seq<char>) -> nat
    decreases s.len(),
{
    if s.len() == 0 {
        0
    } else {
        digits_value(s.drop_last()) * 10 + (s.last() as int - 48) as nat
    }
}

/// What `str::parse::<u64>` accepts: an optional `+`, then one or more ASCII digits
/// whose value fits in a `u64`.
pub open spec fn parse_u64(s: Seq<char>) -> Option<u64> {
    let digits = unsigned_digits(s);
    if digits.len() > 0 && (forall|i: int| 0 <= i < digits.len() ==> is_digit(#[trigger] digits[i]))
        && digits_value(digits) <= u64::MAX {
        Some(digits_value(digits) as u64)
    } else {
        None
    }
}

/// The text after an optional leading `+`.
pub open spec fn unsigned_digits(s: Seq<char>) -> Seq<char> {
    if s.len() > 0 && s[0] == '+' {
        s.drop_first()
    } else {
        s
    }
}

/// Appends the decimal digits of `n` to `out`.
pub fn push_decimal(out: &mut Vec<char>, n: u64)
    ensures
        final(out)@ == old(out)@ + decimal(n as nat),
    decreases n,
{
    if n >= 10 {
        push_decimal(out, n / 10);
    }
    let c = digit_char_exec(n % 10);
    out.push(c);
    proof {
        if n >= 10 {
            assert(decimal(n as nat) == decimal((n / 10) as nat).push(digit_char((n % 10) as int)));
        }
    }
    assert(final(out)@ =~= old(out)@ + decimal(n as nat));
}

/// The decimal form of `n` (`u64::to_string`).
pub fn decimal_string(n: u64) -> (r: String)
    ensures
        r@ == decimal(n as nat),
{
    let mut digits: Vec<char> = Vec::new();
    push_decimal(&mut digits, n);
    assert(digits@ =~= decimal(n as nat));
    string_of(&digits)
}

proof fn lemma_digits_value_grows(s: Seq<char>, k: int)
    requires
        0 <= k <= s.len(),
    ensures
        digits_value(s.take(k)) <= digits_value(s),
    decreases s.len() - k,
{
    if k < s.len() {
        lemma_digits_value_grows(s, k + 1);
        assert(s.take(k + 1).drop_last() =~= s.take(k));
    } else {
        assert(s.take(k) =~= s);
    }
}

/// Why `str::parse::<u64>` rejects a text (`std::num::IntErrorKind`).
#[derive(Debug, Clone, Copy, PartialEq, Eq, Structural)]
pub enum IntParseFailure {
    /// The text is empty.
    Empty,
    /// A char that is not a digit came first, or the text is a lone sign.
    InvalidDigit,
    /// The digits read so far already exceed `u64::MAX`.
    PosOverflow,
}

impl IntParseFailure {
    /// The message of the matching `ParseIntError`.
    pub fn message(&self) -> (r: &'static str)
        ensures
            r@ == int_parse_failure_text(*self),
    {
        match self {
            IntParseFailure::Empty => "cannot parse integer from empty string",
            IntParseFailure::InvalidDigit => "invalid digit found in string",
            IntParseFailure::PosOverflow => "number too large to fit in target type",
        }
    }
}

/// The message of the `ParseIntError` for a failure.
pub open spec fn int_parse_failure_text(f: IntParseFailure) -> Seq<char> {
    match f {
        IntParseFailure::Empty => "cannot parse integer from empty string"@,
        IntParseFailure::InvalidDigit => "invalid digit found in string"@,
        IntParseFailure::PosOverflow => "number too large to fit in target type"@,
    }
}

/// Reading `d` left to right from index `i` with `value` read so far, the first char
/// that is not a digit or that takes the value past `u64::MAX`, if any.
pub open spec fn digit_scan_failure(d: Seq<char>, i: int, value: nat) -> Option<IntParseFailure>
    decreases d.len() - i,
{
    if i < 0 || i >= d.len() {
        None
    } else if !is_digit(d[i]) {
        Some(IntParseFailure::InvalidDigit)
    } else if value * 10 + (d[i] as int - 48) > u64::MAX {
        Some(IntParseFailure::PosOverflow)
    } else {
        digit_scan_failure(d, i + 1, (value * 10 + (d[i] as int - 48)) as nat)
    }
}

/// Why `str::parse::<u64>` rejects `s`; `None` when it accepts it.
pub open spec fn parse_u64_failure(s: Seq<char>) -> Option<IntParseFailure> {
    if s.len() == 0 {
        Some(IntParseFailure::Empty)
    } else if s == seq!['+'] {
        Some(IntParseFailure::InvalidDigit)
    } else {
        digit_scan_failure(unsigned_digits(s), 0, 0)
    }
}

/// Parses a `u64` the way `str::parse::<u64>` does, saying why a text is rejected.
pub fn parse_u64_checked(s: &[char]) -> (r: Result<u64, IntParseFailure>)
    ensures
        r matches Ok(v) ==> parse_u64(s@) == Some(v) && parse_u64_failure(s@) is None,
        r matches Err(k) ==> parse_u64(s@) is None && parse_u64_failure(s@) == Some(k),
{
    if s.len() == 0 {
        return Err(IntParseFailure::Empty);
    }
    let start: usize = if s[0] == '+' { 1 } else { 0 };
    let ghost digits = unsigned_digits(s@);
    assert(digits =~= s@.skip(start as int));
    if start >= s.len() {
        assert(s@ =~= seq!['+']);
        return Err(IntParseFailure::InvalidDigit);
    }
    assert(s@ != seq!['+']);
    let mut value: u64 = 0;
    let mut k: usize = start;
    assert(digits.take(0) =~= Seq::<char>::empty());
    while k < s.len()
        invariant
            start <= k <= s.len(),
            start < s.len(),
            digits == s@.skip(start as int),
            digits == unsigned_digits(s@),
            forall|i: int| 0 <= i < k - start ==> is_digit(#[trigger] digits[i]),
            value as nat == digits_value(digits.take(k - start)),
            digit_scan_failure(digits, 0, 0) == digit_scan_failure(digits, k - start, value as nat),
        decreases s.len() - k,
    {
        let c = s[k];
        assert(digits[k - start] == c);
        if !('0' <= c && c <= '9') {
            assert(!is_digit(digits[k - start]));
            return Err(IntParseFailure::InvalidDigit);
        }
        let d: u64 = (c as u32 - 48) as u64;
        proof {
            assert(digits.take(k - start + 1).drop_last() =~= digits.take(k - start));
        }
        if value > (u64::MAX - d) / 10 {
            proof {
                lemma_digits_value_grows(digits, k - start + 1);
                assert(digits_value(digits.take(k - start + 1)) == value * 10 + d);
            }
            return Err(IntParseFailure::PosOverflow);
        }
        value = value * 10 + d;
        k = k + 1;
    }
    assert(digits.take(s.len() - start) =~= digits);
    Ok(value)
}

/// Parses a `u64` the way `str::parse::<u64>` does.
pub fn parse_u64_chars(s: &[char]) -> (r: Option<u64>)
    ensures
        r == parse_u64(s@),
{
    match parse_u64_checked(s) {
        Ok(v) => Some(v),
        Err(_) => None,
    }
}

/// Reading back the decimal form of a number gives the number.
pub proof fn lemma_decimal_round_trip(n: u64)
    ensures
        parse_u64(decimal(n as nat)) == Some(n),
{
    lemma_decimal_digits(n as nat);
    assert(decimal(n as nat)[0] != '+');
}

proof fn lemma_decimal_digits(n: nat)
    ensures
        decimal(n).len() > 0,
        forall|i: int| 0 <= i < decimal(n).len() ==> is_digit(#[trigger] decimal(n)[i]),
        digits_value(decimal(n)) == n,
    decreases n,
{
    if n >= 10 {
        lemma_decimal_digits(n / 10);
        assert(decimal(n).drop_last() =~= decimal(n / 10));
    } else {
        assert(decimal(n).drop_last() =~= Seq::<char>::empty());
    }
    let d = (n % 10) as int;
    assert(digit_char(d) as int - 48 == d);
    if n >= 10 {
        assert(decimal(n).last() == digit_char(d));
        assert(digits_value(decimal(n)) == digits_value(decimal(n / 10)) * 10 + d);
    } else {
        assert(decimal(n).last() == digit_char(d));
        assert(digits_value(decimal(n)) == digits_value(decimal(n).drop_last()) * 10 + d);
    }
}

} // verus!

verus! {

/// A filter that keeps everything changes nothing.
pub proof fn lemma_filter_keeps_all(s: Seq<char>, p: spec_fn(char) -> bool)
    requires
        forall|i: int| 0 <= i < s.len() ==> p(#[trigger] s[i]),
    ensures
        s.filter(p) == s,
    decreases s.len(),
{
    reveal_with_fuel(Seq::filter, 1);
    if s.len() > 0 {
        lemma_filter_keeps_all(s.drop_last(), p);
        assert(s.drop_last().push(s.last()) =~= s);
    }
}

/// What a filter keeps satisfies its predicate and comes from the filtered sequence.
pub proof fn lemma_filter_elements(s: Seq<char>, p: spec_fn(char) -> bool, i: int)
    requires
        0 <= i < s.filter(p).len(),
    ensures
        p(s.filter(p)[i]),
        s.contains(s.filter(p)[i]),
    decreases s.len(),
{
    reveal_with_fuel(Seq::filter, 1);
    if s.len() > 0 {
        let sub = s.drop_last().filter(p);
        if i < sub.len() {
            lemma_filter_elements(s.drop_last(), p, i);
            let k = choose|k: int| 0 <= k < s.drop_last().len() && s.drop_last()[k] == sub[i];
            assert(s[k] == s.filter(p)[i]);
        } else {
            assert(s[s.len() - 1] == s.filter(p)[i]);
        }
    }
}

/// The runs of non-whitespace are non-empty, hold no whitespace, and hold only chars
/// of the text; the text ends inside the last run exactly when its last char is not
/// whitespace.
pub proof fn lemma_ws_words_shape(s: Seq<char>)
    ensures
        forall|k: int| 0 <= k < ws_words(s).len() ==> #[trigger] ws_words(s)[k].len() > 0,
        forall|k: int, j: int|
            0 <= k < ws_words(s).len() && 0 <= j < ws_words(s)[k].len() ==> !white_space(
                #[trigger] ws_words(s)[k][j],
            ) && s.contains(ws_words(s)[k][j]),
        s.len() > 0 && !white_space(s.last()) ==> ws_words(s).len() > 0,
    decreases s.len(),
{
    if s.len() > 0 {
        let prev = s.drop_last();
        lemma_ws_words_shape(prev);
        let w = ws_words(s);
        let pw = ws_words(prev);
        let c = s.last();
        assert forall|k: int, j: int| 0 <= k < w.len() && 0 <= j < w[k].len() implies !white_space(
            #[trigger] w[k][j],
        ) && s.contains(w[k][j]) by {
            if white_space(c) {
                assert(w[k] == pw[k]);
                assert(prev.contains(pw[k][j]));
                let m = choose|m: int| 0 <= m < prev.len() && prev[m] == pw[k][j];
                assert(s[m] == prev[m]);
            } else if s.len() > 1 && !white_space(prev.last()) {
                if k < pw.len() - 1 || j < pw[k].len() {
                    assert(w[k][j] == pw[k][j]);
                    assert(prev.contains(pw[k][j]));
                    let m = choose|m: int| 0 <= m < prev.len() && prev[m] == pw[k][j];
                    assert(s[m] == prev[m]);
                } else {
                    assert(w[k][j] == c);
                    assert(s[s.len() - 1] == c);
                }
            } else {
                if k < pw.len() {
                    assert(w[k] == pw[k]);
                    assert(prev.contains(pw[k][j]));
                    let m = choose|m: int| 0 <= m < prev.len() && prev[m] == pw[k][j];
                    assert(s[m] == prev[m]);
                } else {
                    assert(w[k][j] == c);
                    assert(s[s.len() - 1] == c);
                }
            }
        }
    }
}

/// Appending a whitespace char adds no run.
pub proof fn lemma_ws_words_push_space(y: Seq<char>, c: char)
    requires
        white_space(c),
    ensures
        ws_words(y.push(c)) == ws_words(y),
{
    assert(y.push(c).drop_last() =~= y);
}

/// Appending a run to a text that ends in whitespace (or is empty) appends that run.
proof fn lemma_ws_words_append_run(y: Seq<char>, w: Seq<char>)
    requires
        y.len() == 0 || white_space(y.last()),
        w.len() > 0,
        forall|j: int| 0 <= j < w.len() ==> !white_space(#[trigger] w[j]),
    ensures
        ws_words(y + w) == ws_words(y).push(w),
    decreases w.len(),
{
    let s = y + w;
    assert(s.drop_last() =~= y + w.drop_last());
    assert(s.last() == w.last());
    if w.len() == 1 {
        assert(y + w.drop_last() =~= y);
        assert(seq![w.last()] =~= w);
    } else {
        lemma_ws_words_append_run(y, w.drop_last());
        assert((y + w.drop_last()).last() == w.drop_last().last());
        assert(w.drop_last().push(w.last()) =~= w);
        assert(ws_words(y).push(w.drop_last()).update(ws_words(y).len() as int, w) =~= ws_words(y).push(w));
    }
}

/// Splitting at whitespace undoes joining non-empty, whitespace-free runs with spaces.
pub proof fn lemma_ws_words_join(words: Seq<Seq<char>>)
    requires
        forall|k: int| 0 <= k < words.len() ==> #[trigger] words[k].len() > 0,
        forall|k: int, j: int| 0 <= k < words.len() && 0 <= j < words[k].len() ==> !white_space(
            #[trigger] words[k][j],
        ),
    ensures
        ws_words(join_with(words, space())) == words,
    decreases words.len(),
{
    if words.len() == 0 {
        assert(ws_words(Seq::<char>::empty()) =~= words);
    } else {
        let last = words.last();
        assert forall|j: int| 0 <= j < last.len() implies !white_space(#[trigger] last[j]) by {
            assert(words[words.len() - 1][j] == last[j]);
        }
        if words.len() == 1 {
            lemma_ws_words_append_run(Seq::<char>::empty(), last);
            assert(Seq::<char>::empty() + last =~= last);
            assert(Seq::<Seq<char>>::empty().push(last) =~= words);
        } else {
            let front = words.drop_last();
            lemma_ws_words_join(front);
            let y = join_with(front, space());
            lemma_ws_words_push_space(y, ' ');
            assert(y + space() =~= y.push(' '));
            lemma_ws_words_append_run(y.push(' '), last);
            assert(join_with(words, space()) == y + space() + last);
            assert(front.push(last) =~= words);
        }
    }
}

/// Every char of a join of runs with spaces is a space or a char of one of the runs.
pub proof fn lemma_join_chars(words: Seq<Seq<char>>, i: int)
    requires
        0 <= i < join_with(words, space()).len(),
    ensures
        join_with(words, space())[i] == ' ' || exists|k: int, j: int|
            0 <= k < words.len() && 0 <= j < words[k].len() && #[trigger] words[k][j] == join_with(words, space())[i],
    decreases words.len(),
{
    let n = join_with(words, space());
    if words.len() == 1 {
        assert(words[0][i] == n[i]);
    } else if words.len() > 1 {
        let front = words.drop_last();
        let y = join_with(front, space());
        if i < y.len() {
            lemma_join_chars(front, i);
            assert(n[i] == y[i]);
            if y[i] != ' ' {
                let (k, j) = choose|k: int, j: int|
                    0 <= k < front.len() && 0 <= j < front[k].len() && #[trigger] front[k][j] == y[i];
                assert(words[k][j] == front[k][j]);
            }
        } else if i > y.len() {
            let j = i - y.len() - 1;
            assert(n[i] == words.last()[j]);
            assert(words[words.len() - 1][j] == n[i]);
        }
    }
}

/// Joining non-empty, space-free runs with single spaces gives a text that is empty only
/// for no runs, starts and ends with a non-space, and never has two spaces side by side.
pub proof fn lemma_join_shape(words: Seq<Seq<char>>)
    requires
        forall|k: int| 0 <= k < words.len() ==> #[trigger] words[k].len() > 0,
        forall|k: int, j: int| 0 <= k < words.len() && 0 <= j < words[k].len() ==> #[trigger] words[k][j] != ' ',
    ensures
        words.len() > 0 ==> join_with(words, space()).len() > 0,
        join_with(words, space()).len() > 0 ==> join_with(words, space())[0] != ' '
            && join_with(words, space())[join_with(words, space()).len() - 1] != ' ',
        forall|i: int| 0 <= i < join_with(words, space()).len() - 1 && #[trigger] join_with(words, space())[i] == ' '
            ==> join_with(words, space())[i + 1] != ' ',
    decreases words.len(),
{
    let n = join_with(words, space());
    if words.len() == 1 {
        assert(words[0].len() > 0);
        assert forall|j: int| 0 <= j < n.len() implies n[j] != ' ' by {
            assert(words[0][j] != ' ');
        }
    } else if words.len() > 1 {
        let front = words.drop_last();
        let last = words.last();
        assert forall|k: int| 0 <= k < front.len() implies #[trigger] front[k].len() > 0 by {
            assert(words[k].len() > 0);
        }
        assert forall|k: int, j: int| 0 <= k < front.len() && 0 <= j < front[k].len() implies #[trigger] front[k][j] != ' ' by {
            assert(words[k][j] != ' ');
        }
        lemma_join_shape(front);
        let y = join_with(front, space());
        assert(n == y + space() + last);
        assert(words[words.len() - 1].len() > 0);
        assert forall|j: int| 0 <= j < last.len() implies last[j] != ' ' by {
            assert(words[words.len() - 1][j] != ' ');
        }
        assert(n[0] == y[0]);
        assert(n[n.len() - 1] == last[last.len() - 1]);
        assert forall|i: int| 0 <= i < n.len() - 1 && #[trigger] n[i] == ' ' implies n[i + 1] != ' ' by {
            if i < y.len() - 1 {
                assert(n[i] == y[i]);
                assert(n[i + 1] == y[i + 1]);
            } else if i == y.len() - 1 {
                assert(n[i] == y[y.len() - 1]);
            } else if i == y.len() {
                assert(n[i + 1] == last[0]);
            } else {
                assert(n[i] == last[i - y.len() - 1]);
            }
        }
    }
}

/// Splitting a text that holds no `sep` gives the text itself as the one piece.
pub proof fn lemma_split_whole(w: Seq<char>, sep: char)
    requires
        forall|j: int| 0 <= j < w.len() ==> w[j] != sep,
    ensures
        split_on(w, sep) == seq![w],
    decreases w.len(),
{
    if w.len() > 0 {
        lemma_split_whole(w.drop_last(), sep);
        assert(w.drop_last().push(w.last()) =~= w);
    } else {
        assert(w =~= Seq::<char>::empty());
    }
}

/// Splitting `a`, a `sep` and a piece free of `sep` gives the pieces of `a` and then
/// that piece.
pub proof fn lemma_split_append_piece(a: Seq<char>, w: Seq<char>, sep: char)
    requires
        forall|j: int| 0 <= j < w.len() ==> w[j] != sep,
    ensures
        split_on(a.push(sep) + w, sep) == split_on(a, sep).push(w),
    decreases w.len(),
{
    if w.len() == 0 {
        assert(a.push(sep) + w =~= a.push(sep));
        assert(a.push(sep).drop_last() =~= a);
        assert(w =~= Seq::<char>::empty());
    } else {
        let front = w.drop_last();
        assert forall|j: int| 0 <= j < front.len() implies front[j] != sep by {
            assert(front[j] == w[j]);
        }
        assert(w[w.len() - 1] != sep);
        lemma_split_append_piece(a, front, sep);
        let s = a.push(sep) + w;
        assert(s.drop_last() =~= a.push(sep) + front);
        assert(s.last() == w.last());
        assert(front.push(w.last()) =~= w);
        assert(split_on(a, sep).push(front).update(split_on(a, sep).len() as int, w) =~= split_on(a, sep).push(w));
    }
}

/// Splitting at spaces undoes joining non-empty, space-free words with single spaces.
pub proof fn lemma_split_join(words: Seq<Seq<char>>)
    requires
        words.len() > 0,
        forall|k: int, j: int| 0 <= k < words.len() && 0 <= j < words[k].len() ==> #[trigger] words[k][j] != ' ',
    ensures
        split_on(join_with(words, space()), ' ') == words,
    decreases words.len(),
{
    if words.len() == 1 {
        assert forall|j: int| 0 <= j < words[0].len() implies words[0][j] != ' ' by {
            assert(words[0][j] != ' ');
        }
        lemma_split_whole(words[0], ' ');
        assert(seq![words[0]] =~= words);
    } else {
        let front = words.drop_last();
        let last = words.last();
        assert forall|k: int, j: int| 0 <= k < front.len() && 0 <= j < front[k].len() implies #[trigger] front[k][j] != ' ' by {
            assert(words[k][j] != ' ');
        }
        lemma_split_join(front);
        assert forall|j: int| 0 <= j < last.len() implies last[j] != ' ' by {
            assert(words[words.len() - 1][j] != ' ');
        }
        let y = join_with(front, space());
        lemma_split_append_piece(y, last, ' ');
        assert(y + space() + last =~= y.push(' ') + last);
        assert(front.push(last) =~= words);
    }
}

/// Trimming changes nothing when the text is empty or starts and ends with a char that
/// is not whitespace.
pub proof fn lemma_trim_unchanged(s: Seq<char>)
    requires
        s.len() > 0 ==> !white_space(s[0]) && !white_space(s[s.len() - 1]),
    ensures
        trim(s) == s,
{
    assert(trim_start(s) == s);
    if s.len() > 0 {
        assert(s.last() == s[s.len() - 1]);
    }
    assert(trim_end(s) == s);
}

} // verus!
