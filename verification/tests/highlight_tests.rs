use verse_lookup::highlight::{
    highlight_pattern, spans_from_matches, split_for_highlight, whole_text, HighlightSpan,
};

fn span(text: &str, is_match: bool) -> HighlightSpan<'_> {
    HighlightSpan { text, is_match }
}

fn joined(spans: &[HighlightSpan<'_>]) -> String {
    spans.iter().map(|s| s.text).collect()
}

#[test]
fn segment_marks_each_word_of_the_query() {
    let text = "the faith of Noah";
    let spans = split_for_highlight(text, "faith OR Noah");
    assert_eq!(
        spans,
        vec![span("the ", false), span("faith", true), span(" of ", false), span("Noah", true)]
    );
    assert_eq!(joined(&spans), text);
}

#[test]
fn segment_ignores_case() {
    assert_eq!(
        split_for_highlight("Faith and FAITH", "faith"),
        vec![span("Faith", true), span(" and ", false), span("FAITH", true)]
    );
}

#[test]
fn segment_without_matchable_words_returns_the_whole_text() {
    assert_eq!(split_for_highlight("the faith of Noah", ""), vec![span("the faith of Noah", false)]);
    assert_eq!(split_for_highlight("the faith of Noah", "AND or"), vec![span("the faith of Noah", false)]);
    assert_eq!(split_for_highlight("the faith of Noah", "NOTfaith"), vec![span("the faith of Noah", false)]);
    assert_eq!(split_for_highlight("", ""), vec![span("", false)]);
}

#[test]
fn segment_does_not_mark_what_follows_a_not() {
    assert_eq!(
        split_for_highlight("faith without fear", "faith NOTfear"),
        vec![span("faith", true), span(" without fear", false)]
    );
    assert_eq!(
        split_for_highlight("not a note", "NOT note"),
        vec![span("not a note", false)]
    );
}

#[test]
fn segment_with_no_match_returns_one_unmatched_span() {
    assert_eq!(split_for_highlight("the faith of Noah", "hope"), vec![span("the faith of Noah", false)]);
}

#[test]
fn segment_of_empty_text_with_words_is_empty() {
    assert_eq!(split_for_highlight("", "faith"), vec![]);
}

#[test]
fn segment_match_at_either_end() {
    assert_eq!(
        split_for_highlight("faith and hope", "faith hope"),
        vec![span("faith", true), span(" and ", false), span("hope", true)]
    );
    assert_eq!(split_for_highlight("faith", "faith"), vec![span("faith", true)]);
    assert_eq!(
        split_for_highlight("faithfaith", "faith"),
        vec![span("faith", true), span("faith", true)]
    );
}

#[test]
fn segment_prefers_the_word_that_comes_first_in_the_query() {
    assert_eq!(
        split_for_highlight("faithful", "faith faithful"),
        vec![span("faith", true), span("ful", false)]
    );
    assert_eq!(split_for_highlight("faithful", "faithful faith"), vec![span("faithful", true)]);
}

#[test]
fn segment_reads_words_as_patterns() {
    assert_eq!(
        split_for_highlight("a1b22c", "[0-9]+"),
        vec![span("a", false), span("1", true), span("b", false), span("22", true), span("c", false)]
    );
    assert_eq!(
        split_for_highlight("a.b", "."),
        vec![span("a", true), span(".", true), span("b", true)]
    );
}

#[test]
fn segment_falls_back_when_the_pattern_is_refused() {
    assert_eq!(split_for_highlight("the faith of Noah", "faith ("), vec![span("the faith of Noah", false)]);
    assert_eq!(split_for_highlight("the faith of Noah", "[a"), vec![span("the faith of Noah", false)]);
    assert_eq!(split_for_highlight("x", "\\w{1000}{1000}"), vec![span("x", false)]);
    assert_eq!(split_for_highlight("", "("), vec![span("", false)]);
}

#[test]
fn segment_keeps_empty_matches() {
    assert_eq!(
        split_for_highlight("bab", "a*"),
        vec![span("", true), span("b", false), span("a", true), span("b", false), span("", true)]
    );
    assert_eq!(split_for_highlight("", "a*"), vec![span("", true)]);
}

#[test]
fn segment_cuts_between_characters_of_any_width() {
    let text = "\u{3b1}\u{3b2} gr\u{e2}ce \u{4e2d}\u{6587} \u{1f600}!";
    assert_eq!(
        split_for_highlight(text, "GR\u{c2}CE \u{6587}"),
        vec![
            span("\u{3b1}\u{3b2} ", false),
            span("gr\u{e2}ce", true),
            span(" \u{4e2d}", false),
            span("\u{6587}", true),
            span(" \u{1f600}!", false),
        ]
    );
    for query in ["", "a*", ".", "\u{1f600}", "\u{3b2}|x", "(", "\\b"] {
        assert_eq!(joined(&split_for_highlight(text, query)), text, "{:?}", query);
    }
}

#[test]
fn segment_joins_back_to_the_text() {
    let texts = ["", "a", "the faith of Noah", "  spaced  out  ", "faithfaithfaith", "\u{e9}t\u{e9} \u{4e2d}"];
    let queries = ["", "faith", "faith OR Noah", "a e i o u", "t*", "\\s+", "NOTthe of", "x|", "(?-u:\\w)", "["];
    for text in texts {
        for query in queries {
            let spans = split_for_highlight(text, query);
            assert_eq!(joined(&spans), text, "{:?} {:?}", text, query);
            let mut at = 0;
            for s in &spans {
                assert_eq!(&text[at..at + s.text.len()], s.text);
                at += s.text.len();
            }
            assert_eq!(at, text.len());
        }
    }
}

#[test]
fn segment_spans_are_pieces_of_the_text_itself() {
    let text = String::from("the faith of Noah");
    let spans = split_for_highlight(&text, "faith");
    let base = text.as_ptr() as usize;
    let mut at = 0;
    for s in &spans {
        assert_eq!(s.text.as_ptr() as usize, base + at);
        at += s.text.len();
    }
}

#[test]
fn unmatched_spans_are_never_empty_where_words_are_looked_for() {
    for (text, query) in [("bab", "a*"), ("faithfaith", "faith"), ("a b", "\\b"), ("faith", "faith")] {
        for s in split_for_highlight(text, query) {
            assert!(s.is_match || !s.text.is_empty(), "{:?} {:?}", text, query);
        }
    }
}

#[test]
fn pattern_joins_the_matchable_words() {
    assert_eq!(highlight_pattern("faith OR Noah"), Some("(?i)(faith|Noah)".to_string()));
    assert_eq!(highlight_pattern("faith"), Some("(?i)(faith)".to_string()));
    assert_eq!(highlight_pattern("  a AND b or NOTc d  "), Some("(?i)(a|b|d)".to_string()));
    assert_eq!(highlight_pattern("a.b [x"), Some("(?i)(a.b|[x)".to_string()));
    assert_eq!(highlight_pattern("not NOT Notes x"), Some("(?i)(x)".to_string()));
}

#[test]
fn pattern_is_none_without_matchable_words() {
    assert_eq!(highlight_pattern(""), None);
    assert_eq!(highlight_pattern("   "), None);
    assert_eq!(highlight_pattern("AND OR and or"), None);
    assert_eq!(highlight_pattern("NOTfaith NOT"), None);
}

#[test]
fn spans_follow_the_matches() {
    let text = "the faith of Noah";
    assert_eq!(
        spans_from_matches(text, &vec![(4, 9), (13, 17)]),
        vec![span("the ", false), span("faith", true), span(" of ", false), span("Noah", true)]
    );
    assert_eq!(spans_from_matches(text, &vec![]), vec![span(text, false)]);
    assert_eq!(spans_from_matches("", &vec![]), vec![]);
    assert_eq!(
        spans_from_matches(text, &vec![(0, 3), (3, 4)]),
        vec![span("the", true), span(" ", true), span("faith of Noah", false)]
    );
    assert_eq!(
        spans_from_matches(text, &vec![(0, 0), (17, 17)]),
        vec![span("", true), span(text, false), span("", true)]
    );
    assert_eq!(
        spans_from_matches("\u{e9}t\u{e9}", &vec![(2, 3)]),
        vec![span("\u{e9}", false), span("t", true), span("\u{e9}", false)]
    );
}

#[test]
fn whole_text_is_one_unmatched_span() {
    assert_eq!(whole_text("abc"), vec![span("abc", false)]);
    assert_eq!(whole_text(""), vec![span("", false)]);
}

#[test]
fn pattern_matches_come_in_order_on_character_boundaries() {
    let texts = ["", "bab", "the faith of Noah", "\u{3b1}\u{3b2} gr\u{e2}ce \u{4e2d}\u{6587} \u{1f600}!"];
    let queries = ["a*", ".", "\\b", "x|", "faith Noah", "(?-i)a", "\u{e2}|\u{1f600}", "[^a]*", "$ ^"];
    for text in texts {
        for query in queries {
            let pattern = highlight_pattern(query).unwrap();
            let re = regex::Regex::new(&pattern).unwrap();
            let mut last_end = 0;
            let mut expected = Vec::new();
            for m in re.find_iter(text) {
                assert!(last_end <= m.start() && m.start() <= m.end() && m.end() <= text.len());
                assert!(text.is_char_boundary(m.start()) && text.is_char_boundary(m.end()));
                if m.start() > last_end {
                    expected.push(span(&text[last_end..m.start()], false));
                }
                expected.push(span(&text[m.start()..m.end()], true));
                last_end = m.end();
            }
            if last_end < text.len() {
                expected.push(span(&text[last_end..], false));
            }
            assert_eq!(split_for_highlight(text, query), expected, "{:?} {:?}", text, query);
        }
    }
}
