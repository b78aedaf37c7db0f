//! Verse ranges and the compact notation that names them.

use crate::text::{
    chars_of, is_space, is_space_char, is_word, lemma_word_len_is, text_between, word_len,
};
use vstd::prelude::*;

verus! {

/// The number by which verses are ordered across chapters. A chapter is taken
/// to hold fewer than a thousand verses.
pub open spec fn verse_key(chapter: int, verse: int) -> int {
    chapter * 1000 + verse
}

/// A span of verses in one collection, from `start_chapter:start_verse` to
/// `end_chapter:end_verse`, both included. Nothing orders the two ends: a
/// range whose end comes before its start holds no verse.
#[derive(Clone, PartialEq, Eq, Debug)]
pub struct VerseRange {
    pub collection_key: String,
    pub start_chapter: u32,
    pub start_verse: u32,
    pub end_chapter: u32,
    pub end_verse: u32,
}

/// What a [`VerseRange`] stands for.
pub struct VerseRangeView {
    pub collection_key: Seq<char>,
    pub start_chapter: u32,
    pub start_verse: u32,
    pub end_chapter: u32,
    pub end_verse: u32,
}

impl View for VerseRange {
    type V = VerseRangeView;

    open spec fn view(&self) -> VerseRangeView {
        VerseRangeView {
            collection_key: self.collection_key@,
            start_chapter: self.start_chapter,
            start_verse: self.start_verse,
            end_chapter: self.end_chapter,
            end_verse: self.end_verse,
        }
    }
}

impl VerseRange {
    /// The key of the first verse of the range.
    pub open spec fn start_key(&self) -> int {
        verse_key(self.start_chapter as int, self.start_verse as int)
    }

    /// The key of the last verse of the range.
    pub open spec fn end_key(&self) -> int {
        verse_key(self.end_chapter as int, self.end_verse as int)
    }

    /// True when the range ends before it starts.
    pub open spec fn is_inverted(&self) -> bool {
        self.start_key() > self.end_key()
    }

    /// True when the verse `chapter:verse` lies in the range.
    pub open spec fn contains(&self, chapter: u32, verse: u32) -> bool {
        self.start_key() <= verse_key(chapter as int, verse as int) <= self.end_key()
    }

    /// Decides [`VerseRange::contains`].
    pub fn covers(&self, chapter: u32, verse: u32) -> (b: bool)
        ensures
            b == self.contains(chapter, verse),
    {
        let key: u64 = key_of(chapter, verse);
        key_of(self.start_chapter, self.start_verse) <= key && key <= key_of(
            self.end_chapter,
            self.end_verse,
        )
    }
}

/// Computes [`verse_key`].
pub fn key_of(chapter: u32, verse: u32) -> (key: u64)
    ensures
        key == verse_key(chapter as int, verse as int),
{
    (chapter as u64) * 1000 + (verse as u64)
}

/// A range that ends before it starts holds no verse.
pub proof fn lemma_inverted_range_is_empty(range: VerseRange, chapter: u32, verse: u32)
    requires
        range.is_inverted(),
    ensures
        !range.contains(chapter, verse),
{
}

/// The decimal digits.
pub open spec fn is_digit(c: char) -> bool {
    '0' <= c <= '9'
}

/// The number of white-space characters that `s` starts with.
pub open spec fn space_len(s: Seq<char>) -> nat
    decreases s.len(),
{
    if s.len() == 0 || !is_space(s[0]) {
        0
    } else {
        1 + space_len(s.drop_first())
    }
}

/// The number of digits that `s` starts with.
pub open spec fn digit_len(s: Seq<char>) -> nat
    decreases s.len(),
{
    if s.len() == 0 || !is_digit(s[0]) {
        0
    } else {
        1 + digit_len(s.drop_first())
    }
}

/// The number that the digits `s` write in base ten.
pub open spec fn digits_value(s: Seq<char>) -> nat
    decreases s.len(),
{
    if s.len() == 0 {
        0
    } else {
        digits_value(s.drop_last()) * 10 + (s.last() as nat - '0' as nat) as nat
    }
}

/// The number that `s` starts with and what follows it: none where `s`
/// starts with no digit, or with a number too large for 32 bits.
pub open spec fn leading_number(s: Seq<char>) -> Option<(u32, Seq<char>)> {
    let n = digit_len(s) as int;
    if n > 0 && digits_value(s.take(n)) <= u32::MAX {
        Some((digits_value(s.take(n)) as u32, s.skip(n)))
    } else {
        None
    }
}

/// What follows the character `c` at the start of `s`: none where `s` does
/// not start with `c`.
pub open spec fn after_char(s: Seq<char>, c: char) -> Option<Seq<char>> {
    if s.len() > 0 && s[0] == c {
        Some(s.skip(1))
    } else {
        None
    }
}

/// The chapters and verses that `s` names, as start chapter, start verse, end
/// chapter and end verse. `s` is `chapter:verse-verse`, where the range ends
/// in the chapter it starts in, or `chapter:verse-chapter:verse`, and nothing
/// more.
pub open spec fn parsed_span(s: Seq<char>) -> Option<(u32, u32, u32, u32)> {
    match leading_number(s) {
        None => None,
        Some((a, s1)) => match after_char(s1, ':') {
            None => None,
            Some(s2) => match leading_number(s2) {
                None => None,
                Some((b, s3)) => match after_char(s3, '-') {
                    None => None,
                    Some(s4) => match leading_number(s4) {
                        None => None,
                        Some((c, s5)) => if s5.len() == 0 {
                            Some((a, b, a, c))
                        } else {
                            match after_char(s5, ':') {
                                None => None,
                                Some(s6) => match leading_number(s6) {
                                    None => None,
                                    Some((d, s7)) => if s7.len() == 0 {
                                        Some((a, b, c, d))
                                    } else {
                                        None
                                    },
                                },
                            }
                        },
                    },
                },
            },
        },
    }
}

/// The range that `s` names: a collection key without white space, then white
/// space, then chapters and verses as [`parsed_span`] reads them. None where
/// `s` is not of that form from its first character to its last.
pub open spec fn parsed(s: Seq<char>) -> Option<VerseRangeView> {
    let k = word_len(s) as int;
    let g = space_len(s.skip(k)) as int;
    if k > 0 && g > 0 {
        match parsed_span(s.skip(k).skip(g)) {
            Some((a, b, c, d)) => Some(
                VerseRangeView {
                    collection_key: s.take(k),
                    start_chapter: a,
                    start_verse: b,
                    end_chapter: c,
                    end_verse: d,
                },
            ),
            None => None,
        }
    } else {
        None
    }
}

/// The white space at the start of a text ends inside the text and is white
/// space throughout.
pub proof fn lemma_space_len_bounds(s: Seq<char>)
    ensures
        space_len(s) <= s.len(),
        forall|j: int| 0 <= j < space_len(s) ==> is_space(#[trigger] s[j]),
    decreases s.len(),
{
    if s.len() > 0 && is_space(s[0]) {
        let rest = s.drop_first();
        lemma_space_len_bounds(rest);
        assert forall|j: int| 0 <= j < space_len(s) implies is_space(#[trigger] s[j]) by {
            if j > 0 {
                assert(s[j] == rest[j - 1]);
            }
        }
    }
}

/// The first `n` characters of `s` are the white space it starts with when
/// all of them are white space and the text ends or goes on otherwise.
pub proof fn lemma_space_len_is(s: Seq<char>, n: int)
    requires
        0 <= n <= s.len(),
        forall|j: int| 0 <= j < n ==> is_space(#[trigger] s[j]),
        n < s.len() ==> !is_space(s[n]),
    ensures
        space_len(s) == n,
    decreases n,
{
    if n > 0 {
        let rest = s.drop_first();
        lemma_space_len_is(rest, n - 1);
    }
}

/// The first `n` characters of `s` are the digits it starts with when all of
/// them are digits and the text ends or goes on otherwise.
pub proof fn lemma_digit_len_is(s: Seq<char>, n: int)
    requires
        0 <= n <= s.len(),
        forall|j: int| 0 <= j < n ==> is_digit(#[trigger] s[j]),
        n < s.len() ==> !is_digit(s[n]),
    ensures
        digit_len(s) == n,
    decreases n,
{
    if n > 0 {
        let rest = s.drop_first();
        lemma_digit_len_is(rest, n - 1);
    }
}

/// True when `g` is white space and nothing else, and not empty.
pub open spec fn is_gap(g: Seq<char>) -> bool {
    g.len() > 0 && forall|j: int| 0 <= j < g.len() ==> is_space(#[trigger] g[j])
}

/// True when `s` is digits and nothing else, not empty, and writes a number
/// of at most 32 bits.
pub open spec fn is_number(s: Seq<char>) -> bool {
    &&& s.len() > 0
    &&& forall|j: int| 0 <= j < s.len() ==> is_digit(#[trigger] s[j])
    &&& digits_value(s) <= u32::MAX
}

/// The chapters and verses `a:b-d`.
pub open spec fn short_span(a: Seq<char>, b: Seq<char>, d: Seq<char>) -> Seq<char> {
    a + seq![':'] + (b + seq!['-'] + d)
}

/// The chapters and verses `a:b-c:d`.
pub open spec fn long_span(a: Seq<char>, b: Seq<char>, c: Seq<char>, d: Seq<char>) -> Seq<
    char,
> {
    a + seq![':'] + (b + seq!['-'] + (c + seq![':'] + d))
}

/// A number, followed by anything but a digit, is read as that number, and
/// what followed is left.
pub proof fn lemma_leading_number(digits: Seq<char>, rest: Seq<char>)
    requires
        is_number(digits),
        rest.len() > 0 ==> !is_digit(rest[0]),
    ensures
        leading_number(digits + rest) == Some((digits_value(digits) as u32, rest)),
{
    let s = digits + rest;
    let n = digits.len() as int;
    lemma_digit_len_is(s, n);
    assert(s.take(n) == digits);
}

/// A character, followed by anything, is stepped over, and what followed is
/// left.
pub proof fn lemma_after_char(c: char, rest: Seq<char>)
    ensures
        after_char(seq![c] + rest, c) == Some(rest),
{
}

/// `a:b-d` names the verses `b` to `d` of chapter `a`.
pub proof fn lemma_short_span_is_read(a: Seq<char>, b: Seq<char>, d: Seq<char>)
    requires
        is_number(a),
        is_number(b),
        is_number(d),
    ensures
        parsed_span(short_span(a, b, d)) == Some(
            (
                digits_value(a) as u32,
                digits_value(b) as u32,
                digits_value(a) as u32,
                digits_value(d) as u32,
            ),
        ),
{
    let s4 = d;
    let s3 = seq!['-'] + s4;
    let s2 = b + s3;
    let s1 = seq![':'] + s2;
    assert(short_span(a, b, d) == a + s1);
    lemma_leading_number(a, s1);
    lemma_after_char(':', s2);
    lemma_leading_number(b, s3);
    lemma_after_char('-', s4);
    lemma_leading_number(d, Seq::empty());
}

/// `a:b-c:d` names the verses from `a:b` to `c:d`.
pub proof fn lemma_long_span_is_read(a: Seq<char>, b: Seq<char>, c: Seq<char>, d: Seq<char>)
    requires
        is_number(a),
        is_number(b),
        is_number(c),
        is_number(d),
    ensures
        parsed_span(long_span(a, b, c, d)) == Some(
            (
                digits_value(a) as u32,
                digits_value(b) as u32,
                digits_value(c) as u32,
                digits_value(d) as u32,
            ),
        ),
{
    let s6 = d;
    let s5 = seq![':'] + s6;
    let s4 = c + s5;
    let s3 = seq!['-'] + s4;
    let s2 = b + s3;
    let s1 = seq![':'] + s2;
    assert(long_span(a, b, c, d) == a + s1);
    lemma_leading_number(a, s1);
    lemma_after_char(':', s2);
    lemma_leading_number(b, s3);
    lemma_after_char('-', s4);
    lemma_leading_number(c, s5);
    lemma_after_char(':', s6);
    lemma_leading_number(d, Seq::empty());
}

/// A key, white space and chapters and verses that are read as a span are a
/// reference to that span of the key's collection.
pub proof fn lemma_reference_is_read(key: Seq<char>, gap: Seq<char>, span: Seq<char>)
    requires
        is_word(key),
        is_gap(gap),
        parsed_span(span) is Some,
    ensures
        parsed(key + gap + span) == Some(
            VerseRangeView {
                collection_key: key,
                start_chapter: parsed_span(span).unwrap().0,
                start_verse: parsed_span(span).unwrap().1,
                end_chapter: parsed_span(span).unwrap().2,
                end_verse: parsed_span(span).unwrap().3,
            },
        ),
{
    let s = key + gap + span;
    let k = key.len() as int;
    let g = gap.len() as int;
    lemma_word_len_is(s, k);
    let tail = s.skip(k);
    lemma_space_len_is(tail, g);
    assert(tail.skip(g) == span);
    assert(s.take(k) == key);
}

/// A text that is read as a reference is a key, white space and chapters
/// and verses, and nothing more.
pub proof fn lemma_read_reference_has_the_form(s: Seq<char>)
    requires
        parsed(s) is Some,
    ensures
        ({
            let k = word_len(s) as int;
            let g = space_len(s.skip(k)) as int;
            &&& is_word(s.take(k))
            &&& is_gap(s.skip(k).take(g))
            &&& parsed_span(s.skip(k).skip(g)) is Some
            &&& s == s.take(k) + s.skip(k).take(g) + s.skip(k).skip(g)
            &&& parsed(s).unwrap().collection_key == s.take(k)
        }),
{
    let k = word_len(s) as int;
    let tail = s.skip(k);
    crate::text::lemma_word_len_bounds(s);
    lemma_space_len_bounds(tail);
}

/// Decides [`is_digit`].
pub fn is_digit_char(c: char) -> (b: bool)
    ensures
        b == is_digit(c),
{
    '0' <= c && c <= '9'
}

/// Reads the number that starts at `pos`: its value and where it ends.
fn scan_number(chars: &Vec<char>, pos: usize) -> (r: Option<(u32, usize)>)
    requires
        pos <= chars@.len(),
    ensures
        match leading_number(chars@.skip(pos as int)) {
            Some((value, rest)) => r matches Some((v, end)) && v == value && pos < end
                <= chars@.len() && rest == chars@.skip(end as int),
            None => r is None,
        },
{
    let n = chars.len();
    let ghost tail = chars@.skip(pos as int);
    let mut value: u64 = 0;
    let mut fits = true;
    let mut j: usize = pos;
    while j < n && is_digit_char(chars[j])
        invariant
            n == chars@.len(),
            pos <= j <= n,
            forall|k: int| pos <= k < j ==> is_digit(#[trigger] chars@[k]),
            fits ==> value == digits_value(chars@.subrange(pos as int, j as int)) && value
                <= u32::MAX,
            !fits ==> digits_value(chars@.subrange(pos as int, j as int)) > u32::MAX,
        decreases n - j,
    {
        let c = chars[j];
        proof {
            let grown = chars@.subrange(pos as int, j + 1);
            assert(grown.drop_last() == chars@.subrange(pos as int, j as int));
        }
        if fits {
            let digit: u64 = (c as u32 - '0' as u32) as u64;
            value = value * 10 + digit;
            if value > 0xFFFF_FFFF {
                fits = false;
            }
        }
        j = j + 1;
    }
    proof {
        let len = j - pos;
        lemma_digit_len_is(tail, len);
        assert(tail.take(len) == chars@.subrange(pos as int, j as int));
    }
    if j > pos && fits {
        Some((value as u32, j))
    } else {
        None
    }
}

/// Steps over the character `c` at `pos`, where it stands there.
fn scan_char(chars: &Vec<char>, pos: usize, c: char) -> (r: Option<usize>)
    requires
        pos <= chars@.len(),
    ensures
        match after_char(chars@.skip(pos as int), c) {
            Some(rest) => r == Some((pos + 1) as usize) && pos < chars@.len() && rest
                == chars@.skip(pos + 1),
            None => r is None,
        },
{
    if pos < chars.len() && chars[pos] == c {
        Some(pos + 1)
    } else {
        None
    }
}

/// Reads chapters and verses from `pos` to the end of `chars`.
fn scan_span(chars: &Vec<char>, pos: usize) -> (r: Option<(u32, u32, u32, u32)>)
    requires
        pos <= chars@.len(),
    ensures
        r == parsed_span(chars@.skip(pos as int)),
{
    let n = chars.len();
    let (a, after_a) = match scan_number(chars, pos) {
        Some(found) => found,
        None => { return None; },
    };
    let at_b = match scan_char(chars, after_a, ':') {
        Some(found) => found,
        None => { return None; },
    };
    let (b, after_b) = match scan_number(chars, at_b) {
        Some(found) => found,
        None => { return None; },
    };
    let at_c = match scan_char(chars, after_b, '-') {
        Some(found) => found,
        None => { return None; },
    };
    let (c, after_c) = match scan_number(chars, at_c) {
        Some(found) => found,
        None => { return None; },
    };
    if after_c == n {
        return Some((a, b, a, c));
    }
    let at_d = match scan_char(chars, after_c, ':') {
        Some(found) => found,
        None => { return None; },
    };
    let (d, after_d) = match scan_number(chars, at_d) {
        Some(found) => found,
        None => { return None; },
    };
    if after_d == n {
        Some((a, b, c, d))
    } else {
        None
    }
}

/// Parses a reference such as `Gen 6:1-6` or `Gen 6:1-7:2`: a collection key,
/// white space, a start chapter and verse, and an end verse with or without
/// its chapter. Where the end has no chapter, the range ends in the chapter
/// it starts in. A text of any other form, or with a number too large for 32
/// bits, is no reference.
pub fn parse_lookup(query: &str) -> (r: Option<VerseRange>)
    ensures
        match parsed(query@) {
            Some(range) => r matches Some(found) && found@ == range,
            None => r is None,
        },
{
    let chars = chars_of(query);
    let n = chars.len();
    let mut k: usize = 0;
    while k < n && !is_space_char(chars[k])
        invariant
            n == chars@.len(),
            k <= n,
            forall|j: int| 0 <= j < k ==> !is_space(#[trigger] chars@[j]),
        decreases n - k,
    {
        k = k + 1;
    }
    proof {
        lemma_word_len_is(chars@, k as int);
    }
    let ghost tail = chars@.skip(k as int);
    let mut g: usize = k;
    while g < n && is_space_char(chars[g])
        invariant
            n == chars@.len(),
            k <= g <= n,
            forall|j: int| k <= j < g ==> is_space(#[trigger] chars@[j]),
        decreases n - g,
    {
        g = g + 1;
    }
    proof {
        let len = g - k;
        lemma_space_len_is(tail, len);
        assert(tail.skip(len) == chars@.skip(g as int));
    }
    if k == 0 || g == k {
        return None;
    }
    match scan_span(&chars, g) {
        Some((a, b, c, d)) => Some(
            VerseRange {
                collection_key: text_between(query, 0, k),
                start_chapter: a,
                start_verse: b,
                end_chapter: c,
                end_verse: d,
            },
        ),
        None => None,
    }
}

} // verus!
