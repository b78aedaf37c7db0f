//! The highlighter: cuts a text into the pieces that match the words of a
//! query and the pieces between them.

use crate::text::{
    bounds_fit, chars_of, is_and, is_or, piece_is_and, piece_is_or, piece_starts_with_not, pieces,
    starts_with_not, word_bounds, words,
};
use vstd::prelude::*;
use vstd::string::*;
use vstd::utf8::*;

verus! {

/// A piece of a text, and whether it matched.
#[derive(Clone, Copy, PartialEq, Eq, Debug)]
pub struct HighlightSpan<'a> {
    pub text: &'a str,
    pub is_match: bool,
}

/// What a [`HighlightSpan`] stands for.
pub struct SpanView {
    pub text: Seq<char>,
    pub is_match: bool,
}

impl<'a> View for HighlightSpan<'a> {
    type V = SpanView;

    open spec fn view(&self) -> SpanView {
        SpanView { text: self.text@, is_match: self.is_match }
    }
}

/// What each of `spans` stands for.
pub open spec fn span_views(spans: Seq<HighlightSpan>) -> Seq<SpanView> {
    Seq::new(spans.len(), |i: int| spans[i]@)
}

/// The texts of `spans`, one after the other.
pub open spec fn joined_text(spans: Seq<SpanView>) -> Seq<char>
    decreases spans.len(),
{
    if spans.len() == 0 {
        Seq::empty()
    } else {
        spans[0].text + joined_text(spans.drop_first())
    }
}

/// True when `word` is looked for in the text: it is no keyword and does not
/// start with NOT. What follows a NOT is not looked for either.
pub open spec fn is_matchable(word: Seq<char>) -> bool {
    !is_and(word) && !is_or(word) && !starts_with_not(word)
}

/// Those of `words` that are looked for, in their order.
pub open spec fn matchable_words(words: Seq<Seq<char>>) -> Seq<Seq<char>>
    decreases words.len(),
{
    if words.len() == 0 {
        Seq::empty()
    } else {
        let before = matchable_words(words.drop_last());
        if is_matchable(words.last()) {
            before.push(words.last())
        } else {
            before
        }
    }
}

/// `words` with a `|` between each two.
pub open spec fn alternatives(words: Seq<Seq<char>>) -> Seq<char>
    decreases words.len(),
{
    if words.len() == 0 {
        Seq::empty()
    } else if words.len() == 1 {
        words[0]
    } else {
        alternatives(words.drop_last()) + "|"@ + words.last()
    }
}

/// The pattern that finds any of `words`, in any case. The words stand in it
/// as they were typed: a word that holds characters with a meaning in
/// patterns is read as a pattern.
pub open spec fn pattern_text(words: Seq<Seq<char>>) -> Seq<char> {
    "(?i)("@ + alternatives(words) + ")"@
}

/// The pattern for the words of `query` that are looked for: none where no
/// word is.
pub open spec fn pattern_of(query: Seq<char>) -> Option<Seq<char>> {
    let wanted = matchable_words(words(query));
    if wanted.len() == 0 {
        None
    } else {
        Some(pattern_text(wanted))
    }
}

/// Builds the pattern for the words of `query` that are looked for.
pub fn highlight_pattern(query: &str) -> (pattern: Option<String>)
    ensures
        match pattern_of(query@) {
            Some(text) => pattern matches Some(p) && p@ == text,
            None => pattern is None,
        },
{
    let chars = chars_of(query);
    let bounds = word_bounds(&chars);
    let ghost all = words(query@);
    let mut pattern = "(?i)(".to_string();
    let mut count: usize = 0;
    let mut i: usize = 0;
    while i < bounds.len()
        invariant
            i <= bounds@.len(),
            chars@ == query@,
            all == pieces(chars@, bounds@),
            bounds_fit(bounds@, chars@.len()),
            count == matchable_words(all.take(i as int)).len(),
            count <= i,
            pattern@ == "(?i)("@ + alternatives(matchable_words(all.take(i as int))),
        decreases bounds@.len() - i,
    {
        let (start, end) = bounds[i];
        let ghost word = all[i as int];
        let ghost before = matchable_words(all.take(i as int));
        proof {
            assert(all.take(i + 1).drop_last() == all.take(i as int));
        }
        if !piece_is_and(&chars, start, end) && !piece_is_or(&chars, start, end)
            && !piece_starts_with_not(&chars, start, end) {
            if count > 0 {
                pattern.append("|");
            }
            pattern.append(query.substring_char(start, end));
            proof {
                let grown = before.push(word);
                assert(grown.drop_last() == before);
            }
            count = count + 1;
        }
        i = i + 1;
    }
    proof {
        assert(all.take(bounds@.len() as int) == all);
    }
    if count == 0 {
        None
    } else {
        pattern.append(")");
        Some(pattern)
    }
}

/// Where the pattern `pattern` matches in `text`: the first and the past-the-end
/// byte offset of each match, from left to right, or none where the pattern
/// is refused.
pub uninterp spec fn pattern_matches(pattern: Seq<char>, text: Seq<char>) -> Option<
    Seq<(usize, usize)>,
>;

/// True when `matches` are byte ranges of `bytes` that can be cut out one
/// after the other: each starts no later than it ends, on the boundaries of
/// characters, and none starts before the one before it has ended.
pub open spec fn matches_fit(bytes: Seq<u8>, matches: Seq<(usize, usize)>) -> bool {
    &&& forall|k: int|
        0 <= k < matches.len() ==> {
            &&& (#[trigger] matches[k]).0 <= matches[k].1
            &&& is_char_boundary(bytes, matches[k].0 as int)
            &&& is_char_boundary(bytes, matches[k].1 as int)
        }
    &&& forall|k: int|
        0 <= k < matches.len() - 1 ==> (#[trigger] matches[k]).1 <= matches[k + 1].0
}

/// Compiles `pattern` with `regex::Regex::new` and collects the byte offsets
/// of the matches that `Regex::find_iter` yields in `text`.
///
/// Believed, not proved: the result is the same for the same pattern and
/// text; it is none exactly where the pattern is refused; and the matches
/// are as the regex crate documents them: successive and not overlapping,
/// each with its start no later than its end, both on boundaries of UTF-8
/// characters of `text`.
#[verifier::external_body]
fn find_matches(pattern: &str, text: &str) -> (found: Option<Vec<(usize, usize)>>)
    ensures
        match found {
            Some(matches) => pattern_matches(pattern@, text@) == Some(matches@),
            None => pattern_matches(pattern@, text@) is None,
        },
        found matches Some(matches) ==> matches_fit(text.spec_bytes(), matches@),
{
    match regex::Regex::new(pattern) {
        Ok(re) => Some(re.find_iter(text).map(|m| (m.start(), m.end())).collect()),
        Err(_) => None,
    }
}

/// The characters that the bytes of `bytes` from `from` up to `to` encode.
pub open spec fn piece(bytes: Seq<u8>, from: int, to: int) -> Seq<char> {
    decode_utf8(bytes.subrange(from, to))
}

/// The spans of the bytes from `from` on: for each match the gap before it,
/// where there is one, and the match itself; at last what is left, where
/// anything is.
pub open spec fn spans_from(bytes: Seq<u8>, matches: Seq<(usize, usize)>, from: int) -> Seq<
    SpanView,
>
    decreases matches.len(),
{
    if matches.len() == 0 {
        if from < bytes.len() {
            seq![SpanView { text: piece(bytes, from, bytes.len() as int), is_match: false }]
        } else {
            Seq::empty()
        }
    } else {
        let start = matches[0].0 as int;
        let end = matches[0].1 as int;
        let gap = if start > from {
            seq![SpanView { text: piece(bytes, from, start), is_match: false }]
        } else {
            Seq::empty()
        };
        gap + seq![SpanView { text: piece(bytes, start, end), is_match: true }] + spans_from(
            bytes,
            matches.drop_first(),
            end,
        )
    }
}

/// The spans of `text` for the matches `matches`.
pub open spec fn spans_of(text: Seq<char>, matches: Seq<(usize, usize)>) -> Seq<SpanView> {
    spans_from(encode_utf8(text), matches, 0)
}

/// The whole of `text` as one span that did not match.
pub open spec fn unmatched(text: Seq<char>) -> Seq<SpanView> {
    seq![SpanView { text: text, is_match: false }]
}

/// The spans of `text` for `query`: the whole text, unmatched, where no word
/// of the query is looked for or their pattern is refused; else the spans
/// for the pattern's matches.
pub open spec fn highlighted(text: Seq<char>, query: Seq<char>) -> Seq<SpanView> {
    match pattern_of(query) {
        None => unmatched(text),
        Some(pattern) => match pattern_matches(pattern, text) {
            None => unmatched(text),
            Some(matches) => spans_of(text, matches),
        },
    }
}

/// A boundary of characters stays one in what follows an earlier boundary.
pub proof fn lemma_boundary_in_tail(bytes: Seq<u8>, from: int, at: int)
    requires
        valid_utf8(bytes),
        is_char_boundary(bytes, from),
        is_char_boundary(bytes, at),
        0 <= from <= at,
    ensures
        at <= bytes.len(),
        valid_utf8(bytes.skip(from)),
        is_char_boundary(bytes.skip(from), at - from),
{
    let tail = bytes.skip(from);
    valid_utf8_split(bytes, from);
    is_char_boundary_start_end_of_seq(tail);
    if at - from != 0 && at - from != tail.len() {
        is_char_boundary_iff_not_is_continuation_byte(bytes, at);
        is_char_boundary_iff_not_is_continuation_byte(tail, at - from);
    }
}

/// A single span joins to its own text.
pub proof fn lemma_joined_text_one(span: SpanView)
    ensures
        joined_text(seq![span]) == span.text,
{
    let one = seq![span];
    assert(one.drop_first() == Seq::<SpanView>::empty());
    assert(joined_text(Seq::<SpanView>::empty()) == Seq::<char>::empty());
}

/// Joining the spans of two sequences joins their texts.
pub proof fn lemma_joined_text_add(a: Seq<SpanView>, b: Seq<SpanView>)
    ensures
        joined_text(a + b) == joined_text(a) + joined_text(b),
    decreases a.len(),
{
    if a.len() > 0 {
        assert((a + b).drop_first() == a.drop_first() + b);
        lemma_joined_text_add(a.drop_first(), b);
    }
}

/// The texts of the spans from `from` on, one after the other, are the text
/// from `from` on: nothing is lost, nothing comes twice.
pub proof fn lemma_spans_join(bytes: Seq<u8>, matches: Seq<(usize, usize)>, from: int)
    requires
        valid_utf8(bytes),
        matches_fit(bytes, matches),
        0 <= from,
        is_char_boundary(bytes, from),
        matches.len() > 0 ==> from <= matches[0].0,
    ensures
        joined_text(spans_from(bytes, matches, from)) == decode_utf8(bytes.skip(from)),
    decreases matches.len(),
{
    lemma_boundary_in_tail(bytes, from, from);
    let tail = bytes.skip(from);
    if matches.len() == 0 {
        if from < bytes.len() {
            let only = SpanView { text: piece(bytes, from, bytes.len() as int), is_match: false };
            lemma_joined_text_one(only);
        }
    } else {
        let start = matches[0].0 as int;
        let end = matches[0].1 as int;
        let others = matches.drop_first();
        lemma_spans_join(bytes, others, end);
        lemma_boundary_in_tail(bytes, from, start);
        lemma_boundary_in_tail(bytes, start, end);
        let mid = bytes.skip(start);
        decode_utf8_split(tail, start - from);
        decode_utf8_split(mid, end - start);
        assert(tail.subrange(0, start - from) == bytes.subrange(from, start));
        assert(tail.subrange(start - from, tail.len() as int) == mid);
        assert(mid.subrange(0, end - start) == bytes.subrange(start, end));
        assert(mid.subrange(end - start, mid.len() as int) == bytes.skip(end));
        let hit = SpanView { text: piece(bytes, start, end), is_match: true };
        let rest = spans_from(bytes, others, end);
        let gap = if start > from {
            seq![SpanView { text: piece(bytes, from, start), is_match: false }]
        } else {
            Seq::empty()
        };
        assert(joined_text(gap) == piece(bytes, from, start)) by {
            if start > from {
                lemma_joined_text_one(
                    SpanView { text: piece(bytes, from, start), is_match: false },
                );
            }
        }
        lemma_joined_text_one(hit);
        lemma_joined_text_add(gap, seq![hit]);
        lemma_joined_text_add(gap + seq![hit], rest);
    }
}

/// A piece that starts before it ends holds at least one character.
pub proof fn lemma_piece_holds_text(bytes: Seq<u8>, from: int, to: int)
    requires
        valid_utf8(bytes),
        is_char_boundary(bytes, from),
        is_char_boundary(bytes, to),
        0 <= from < to,
    ensures
        piece(bytes, from, to).len() > 0,
{
    lemma_boundary_in_tail(bytes, from, to);
    let tail = bytes.skip(from);
    valid_utf8_split(tail, to - from);
    assert(tail.subrange(0, to - from) == bytes.subrange(from, to));
}

/// An unmatched span is never empty.
pub proof fn lemma_unmatched_spans_hold_text(
    bytes: Seq<u8>,
    matches: Seq<(usize, usize)>,
    from: int,
)
    requires
        valid_utf8(bytes),
        matches_fit(bytes, matches),
        0 <= from,
        is_char_boundary(bytes, from),
        matches.len() > 0 ==> from <= matches[0].0,
    ensures
        forall|k: int|
            0 <= k < spans_from(bytes, matches, from).len() && !(#[trigger] spans_from(
                bytes,
                matches,
                from,
            )[k]).is_match ==> spans_from(bytes, matches, from)[k].text.len() > 0,
    decreases matches.len(),
{
    lemma_boundary_in_tail(bytes, from, from);
    if matches.len() == 0 {
        if from < bytes.len() {
            is_char_boundary_start_end_of_seq(bytes);
            lemma_piece_holds_text(bytes, from, bytes.len() as int);
        }
    } else {
        let start = matches[0].0 as int;
        let end = matches[0].1 as int;
        let others = matches.drop_first();
        lemma_unmatched_spans_hold_text(bytes, others, end);
        if start > from {
            lemma_piece_holds_text(bytes, from, start);
        }
        let gap = if start > from {
            seq![SpanView { text: piece(bytes, from, start), is_match: false }]
        } else {
            Seq::empty()
        };
        let hit = SpanView { text: piece(bytes, start, end), is_match: true };
        assert(spans_from(bytes, matches, from) == gap + seq![hit] + spans_from(
            bytes,
            others,
            end,
        ));
    }
}

/// Cuts `text` at the matches `matches`: before each match the gap, where
/// there is one, as an unmatched span; the match as a matched span, also
/// where it is empty; and at last what is left, where anything is. The spans
/// are pieces of `text` itself, and together they are the whole of it.
pub fn spans_from_matches<'a>(text: &'a str, matches: &Vec<(usize, usize)>) -> (spans: Vec<
    HighlightSpan<'a>,
>)
    requires
        matches_fit(text.spec_bytes(), matches@),
    ensures
        span_views(spans@) == spans_of(text@, matches@),
        joined_text(span_views(spans@)) == text@,
        forall|k: int|
            0 <= k < spans@.len() && !(#[trigger] spans@[k]).is_match ==> spans@[k].text@.len()
                > 0,
{
    let ghost bytes = text.spec_bytes();
    let mut spans: Vec<HighlightSpan<'a>> = Vec::new();
    let mut rest: &'a str = text;
    let mut last_end: usize = 0;
    let mut i: usize = 0;
    proof {
        encode_utf8_valid_utf8(text@);
        encode_utf8_decode_utf8(text@);
        is_char_boundary_start_end_of_seq(bytes);
        lemma_spans_join(bytes, matches@, 0);
        lemma_unmatched_spans_hold_text(bytes, matches@, 0);
        assert(bytes.skip(0) == bytes);
        assert(matches@.skip(0) == matches@);
        assert(span_views(spans@) + spans_from(bytes, matches@, 0) == spans_from(
            bytes,
            matches@,
            0,
        ));
    }
    while i < matches.len()
        invariant
            i <= matches@.len(),
            bytes == text.spec_bytes(),
            valid_utf8(bytes),
            matches_fit(bytes, matches@),
            is_char_boundary(bytes, last_end as int),
            rest.spec_bytes() == bytes.skip(last_end as int),
            i < matches@.len() ==> last_end <= matches@[i as int].0,
            span_views(spans@) + spans_from(bytes, matches@.skip(i as int), last_end as int)
                == spans_from(bytes, matches@, 0),
        decreases matches@.len() - i,
    {
        let (start, end) = matches[i];
        let ghost before = span_views(spans@);
        let ghost todo = matches@.skip(i as int);
        proof {
            assert(todo.drop_first() == matches@.skip(i + 1));
            lemma_boundary_in_tail(bytes, last_end as int, start as int);
            lemma_boundary_in_tail(bytes, start as int, end as int);
        }
        let (gap, tail) = rest.split_at(start - last_end);
        proof {
            assert(gap.spec_bytes() == bytes.subrange(last_end as int, start as int));
            assert(tail.spec_bytes() == bytes.skip(start as int));
            encode_utf8_decode_utf8(gap@);
        }
        if start > last_end {
            spans.push(HighlightSpan { text: gap, is_match: false });
        }
        let (hit, after) = tail.split_at(end - start);
        proof {
            assert(hit.spec_bytes() == bytes.subrange(start as int, end as int));
            encode_utf8_decode_utf8(hit@);
        }
        spans.push(HighlightSpan { text: hit, is_match: true });
        proof {
            let gap_text = piece(bytes, last_end as int, start as int);
            let gap_spans = if start > last_end {
                seq![SpanView { text: gap_text, is_match: false }]
            } else {
                Seq::empty()
            };
            let hit_text = piece(bytes, start as int, end as int);
            let hit_span = SpanView { text: hit_text, is_match: true };
            assert(span_views(spans@) + spans_from(bytes, matches@.skip(i + 1), end as int)
                == before + (gap_spans + seq![hit_span] + spans_from(
                bytes,
                todo.drop_first(),
                end as int,
            )));
        }
        rest = after;
        last_end = end;
        i = i + 1;
    }
    proof {
        lemma_boundary_in_tail(bytes, last_end as int, last_end as int);
        encode_utf8_decode_utf8(rest@);
    }
    if last_end < text.as_bytes().len() {
        spans.push(HighlightSpan { text: rest, is_match: false });
    }
    proof {
        assert(span_views(spans@) == spans_from(bytes, matches@, 0));
        assert forall|k: int|
            0 <= k < spans@.len() && !(#[trigger] spans@[k]).is_match implies spans@[k].text@.len()
            > 0 by {
            assert(span_views(spans@)[k] == spans@[k]@);
        }
    }
    spans
}

/// Cuts `text` into the spans that match a word of `query` and the spans
/// between them. A keyword, or a word that starts with NOT, is not looked
/// for. Where no word is looked for, or the words make no pattern, the whole
/// text comes back as one unmatched span. The spans together are the text.
pub fn split_for_highlight<'a>(text: &'a str, query: &str) -> (spans: Vec<HighlightSpan<'a>>)
    ensures
        span_views(spans@) == highlighted(text@, query@),
        joined_text(span_views(spans@)) == text@,
{
    match highlight_pattern(query) {
        Some(pattern) => match find_matches(pattern.as_str(), text) {
            Some(matches) => spans_from_matches(text, &matches),
            None => whole_text(text),
        },
        None => whole_text(text),
    }
}

/// The whole of `text` as one unmatched span.
pub fn whole_text<'a>(text: &'a str) -> (spans: Vec<HighlightSpan<'a>>)
    ensures
        span_views(spans@) == unmatched(text@),
        joined_text(span_views(spans@)) == text@,
{
    let mut spans: Vec<HighlightSpan<'a>> = Vec::new();
    spans.push(HighlightSpan { text, is_match: false });
    proof {
        let only = SpanView { text: text@, is_match: false };
        assert(span_views(spans@) == seq![only]);
        lemma_joined_text_one(only);
    }
    spans
}

} // verus!
