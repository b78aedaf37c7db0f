//! Character classes and word splitting shared by the query compiler and the
//! highlighter.

use vstd::prelude::*;

verus! {

/// The characters that separate words: the code points that carry the Unicode
/// property `White_Space`.
pub open spec fn is_space(c: char) -> bool {
    let u = c as u32;
    ||| 0x09 <= u <= 0x0D
    ||| u == 0x20
    ||| u == 0x85
    ||| u == 0xA0
    ||| u == 0x1680
    ||| 0x2000 <= u <= 0x200A
    ||| u == 0x2028
    ||| u == 0x2029
    ||| u == 0x202F
    ||| u == 0x205F
    ||| u == 0x3000
}

/// Decides [`is_space`].
pub fn is_space_char(c: char) -> (b: bool)
    ensures
        b == is_space(c),
{
    let u: u32 = c as u32;
    (0x09 <= u && u <= 0x0D) || u == 0x20 || u == 0x85 || u == 0xA0 || u == 0x1680 || (0x2000 <= u
        && u <= 0x200A) || u == 0x2028 || u == 0x2029 || u == 0x202F || u == 0x205F || u == 0x3000
}

/// True when `c` is `upper` or its lower-case form `lower`.
pub open spec fn is_letter(c: char, upper: char, lower: char) -> bool {
    c == upper || c == lower
}

/// What each of `strings` holds.
pub open spec fn string_views(strings: Seq<String>) -> Seq<Seq<char>> {
    Seq::new(strings.len(), |i: int| strings[i]@)
}

/// The characters of a string, in order.
pub fn chars_of(s: &str) -> (v: Vec<char>)
    ensures
        v@ == s@,
{
    broadcast use vstd::string::axiom_spec_iter;

    let mut v: Vec<char> = Vec::new();
    for c in it: s.chars()
        invariant
            it.seq() == s@,
            v@ == s@.take(it.index()),
    {
        v.push(c);
    }
    v
}

/// The number of characters before the first white space of `s`.
pub open spec fn word_len(s: Seq<char>) -> nat
    decreases s.len(),
{
    if s.len() == 0 || is_space(s[0]) {
        0
    } else {
        1 + word_len(s.drop_first())
    }
}

/// The words of `s`: its longest runs of characters that are not white space,
/// from left to right.
pub open spec fn words(s: Seq<char>) -> Seq<Seq<char>>
    decreases s.len(),
{
    if s.len() == 0 {
        Seq::empty()
    } else if is_space(s[0]) {
        words(s.drop_first())
    } else {
        proof {
            lemma_word_len_bounds(s);
        }
        seq![s.take(word_len(s) as int)] + words(s.skip(word_len(s) as int))
    }
}

/// True when `w` could be a word: it is not empty and holds no white space.
pub open spec fn is_word(w: Seq<char>) -> bool {
    w.len() > 0 && forall|j: int| 0 <= j < w.len() ==> !is_space(#[trigger] w[j])
}

/// A word ends inside the text, and after its first character where the text
/// starts with one.
pub proof fn lemma_word_len_bounds(s: Seq<char>)
    ensures
        word_len(s) <= s.len(),
        s.len() > 0 && !is_space(s[0]) ==> word_len(s) >= 1,
        forall|j: int| 0 <= j < word_len(s) ==> !is_space(#[trigger] s[j]),
        word_len(s) < s.len() ==> is_space(s[word_len(s) as int]),
    decreases s.len(),
{
    if s.len() > 0 && !is_space(s[0]) {
        let rest = s.drop_first();
        lemma_word_len_bounds(rest);
        assert forall|j: int| 0 <= j < word_len(s) implies !is_space(#[trigger] s[j]) by {
            if j > 0 {
                assert(s[j] == rest[j - 1]);
            }
        }
    }
}

/// The first `n` characters of `s` are its first word's when none of them is
/// white space and the text ends or goes on with white space after them.
pub proof fn lemma_word_len_is(s: Seq<char>, n: int)
    requires
        0 <= n <= s.len(),
        forall|j: int| 0 <= j < n ==> !is_space(#[trigger] s[j]),
        n < s.len() ==> is_space(s[n]),
    ensures
        word_len(s) == n,
    decreases n,
{
    if n > 0 {
        lemma_word_len_is(s.drop_first(), n - 1);
    }
}

/// Every word is non-empty and free of white space.
pub proof fn lemma_words_are_words(s: Seq<char>)
    ensures
        forall|k: int| 0 <= k < words(s).len() ==> is_word(#[trigger] words(s)[k]),
    decreases s.len(),
{
    if s.len() > 0 {
        if is_space(s[0]) {
            lemma_words_are_words(s.drop_first());
            assert(words(s) == words(s.drop_first()));
        } else {
            lemma_word_len_bounds(s);
            let n = word_len(s) as int;
            lemma_words_are_words(s.skip(n));
            assert(words(s) == seq![s.take(n)] + words(s.skip(n)));
        }
    }
}

/// A text free of white space is its own single word.
pub proof fn lemma_word_alone(w: Seq<char>)
    requires
        is_word(w),
    ensures
        words(w) == seq![w],
{
    lemma_word_len_is(w, w.len() as int);
    assert(w.take(w.len() as int) == w);
    assert(words(w.skip(w.len() as int)) == Seq::<Seq<char>>::empty());
}

/// The pieces of `chars` that `bounds` marks, each from its first number up
/// to its second.
pub open spec fn pieces(chars: Seq<char>, bounds: Seq<(usize, usize)>) -> Seq<Seq<char>> {
    Seq::new(bounds.len(), |k: int| chars.subrange(bounds[k].0 as int, bounds[k].1 as int))
}

/// True when every pair of `bounds` marks a non-empty piece of a text of
/// `len` characters.
pub open spec fn bounds_fit(bounds: Seq<(usize, usize)>, len: nat) -> bool {
    forall|k: int| 0 <= k < bounds.len() ==> (#[trigger] bounds[k]).0 < bounds[k].1 <= len
}

/// Finds the words of `chars`: where each starts and where it ends.
pub fn word_bounds(chars: &Vec<char>) -> (bounds: Vec<(usize, usize)>)
    ensures
        bounds_fit(bounds@, chars@.len()),
        pieces(chars@, bounds@) == words(chars@),
{
    let n = chars.len();
    let mut bounds: Vec<(usize, usize)> = Vec::new();
    let mut i: usize = 0;
    proof {
        assert(chars@.skip(0) == chars@);
    }
    while i < n
        invariant
            n == chars@.len(),
            i <= n,
            bounds_fit(bounds@, chars@.len()),
            pieces(chars@, bounds@) + words(chars@.skip(i as int)) == words(chars@),
        decreases n - i,
    {
        let ghost rest = chars@.skip(i as int);
        if is_space_char(chars[i]) {
            assert(rest.drop_first() == chars@.skip(i + 1));
            i = i + 1;
        } else {
            let start = i;
            let mut j: usize = i + 1;
            while j < n && !is_space_char(chars[j])
                invariant
                    n == chars@.len(),
                    start < j <= n,
                    forall|k: int| start <= k < j ==> !is_space(#[trigger] chars@[k]),
                decreases n - j,
            {
                j = j + 1;
            }
            proof {
                let len = j - start;
                lemma_word_len_is(rest, len);
                assert(rest.take(len) == chars@.subrange(start as int, j as int));
                assert(rest.skip(len) == chars@.skip(j as int));
                let ghost grown = bounds@.push((start, j));
                assert(pieces(chars@, grown) == pieces(chars@, bounds@) + seq![
                    chars@.subrange(start as int, j as int),
                ]);
            }
            bounds.push((start, j));
            i = j;
        }
    }
    bounds
}

/// `s` without the white space it starts with.
pub open spec fn trim_start(s: Seq<char>) -> Seq<char>
    decreases s.len(),
{
    if s.len() > 0 && is_space(s[0]) {
        trim_start(s.drop_first())
    } else {
        s
    }
}

/// `s` without the white space it ends with.
pub open spec fn trim_end(s: Seq<char>) -> Seq<char>
    decreases s.len(),
{
    if s.len() > 0 && is_space(s.last()) {
        trim_end(s.drop_last())
    } else {
        s
    }
}

/// `s` without the white space at its two ends.
pub open spec fn trimmed(s: Seq<char>) -> Seq<char> {
    trim_end(trim_start(s))
}

/// Trimming changes nothing in a text that holds no white space.
pub proof fn lemma_trimmed_without_space(s: Seq<char>)
    requires
        forall|j: int| 0 <= j < s.len() ==> !is_space(#[trigger] s[j]),
    ensures
        trimmed(s) == s,
{
}

/// The characters of `source` from the `start`-th up to the `end`-th, as a
/// string of their own.
pub fn text_between(source: &str, start: usize, end: usize) -> (t: String)
    requires
        start <= end <= source@.len(),
    ensures
        t@ == source@.subrange(start as int, end as int),
{
    source.substring_char(start, end).to_owned()
}

/// True when `w` is the word AND, in upper or lower case or a mix of them.
pub open spec fn is_and(w: Seq<char>) -> bool {
    &&& w.len() == 3
    &&& is_letter(w[0], 'A', 'a')
    &&& is_letter(w[1], 'N', 'n')
    &&& is_letter(w[2], 'D', 'd')
}

/// True when `w` is the word OR, in upper or lower case or a mix of them.
pub open spec fn is_or(w: Seq<char>) -> bool {
    &&& w.len() == 2
    &&& is_letter(w[0], 'O', 'o')
    &&& is_letter(w[1], 'R', 'r')
}

/// True when `w` starts with NOT, in upper or lower case or a mix of them.
pub open spec fn starts_with_not(w: Seq<char>) -> bool {
    &&& w.len() >= 3
    &&& is_letter(w[0], 'N', 'n')
    &&& is_letter(w[1], 'O', 'o')
    &&& is_letter(w[2], 'T', 't')
}

/// Decides [`is_letter`].
pub fn is_letter_char(c: char, upper: char, lower: char) -> (b: bool)
    ensures
        b == is_letter(c, upper, lower),
{
    c == upper || c == lower
}

/// Decides [`is_and`] of the piece of `chars` from `start` up to `end`.
pub fn piece_is_and(chars: &Vec<char>, start: usize, end: usize) -> (b: bool)
    requires
        start <= end <= chars@.len(),
    ensures
        b == is_and(chars@.subrange(start as int, end as int)),
{
    end - start == 3 && is_letter_char(chars[start], 'A', 'a') && is_letter_char(
        chars[start + 1],
        'N',
        'n',
    ) && is_letter_char(chars[start + 2], 'D', 'd')
}

/// Decides [`is_or`] of the piece of `chars` from `start` up to `end`.
pub fn piece_is_or(chars: &Vec<char>, start: usize, end: usize) -> (b: bool)
    requires
        start <= end <= chars@.len(),
    ensures
        b == is_or(chars@.subrange(start as int, end as int)),
{
    end - start == 2 && is_letter_char(chars[start], 'O', 'o') && is_letter_char(
        chars[start + 1],
        'R',
        'r',
    )
}

/// Decides [`starts_with_not`] of the piece of `chars` from `start` up to
/// `end`.
pub fn piece_starts_with_not(chars: &Vec<char>, start: usize, end: usize) -> (b: bool)
    requires
        start <= end <= chars@.len(),
    ensures
        b == starts_with_not(chars@.subrange(start as int, end as int)),
{
    end - start >= 3 && is_letter_char(chars[start], 'N', 'n') && is_letter_char(
        chars[start + 1],
        'O',
        'o',
    ) && is_letter_char(chars[start + 2], 'T', 't')
}

} // verus!
