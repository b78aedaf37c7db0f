use verse_lookup::reference::{key_of, parse_lookup, VerseRange};

fn range(key: &str, a: u32, b: u32, c: u32, d: u32) -> VerseRange {
    VerseRange {
        collection_key: key.to_string(),
        start_chapter: a,
        start_verse: b,
        end_chapter: c,
        end_verse: d,
    }
}

fn pattern() -> regex::Regex {
    regex::Regex::new(
        r"^(?P<book>\S+)\s+(?P<start_ch>\d+):(?P<start_v>\d+)-(?:(?P<end_ch>\d+):)?(?P<end_v>\d+)$",
    )
    .unwrap()
}

fn parse_with_pattern(re: &regex::Regex, query: &str) -> Option<VerseRange> {
    let caps = re.captures(query)?;
    let book = caps.name("book")?.as_str().to_string();
    let start_ch: u32 = caps.name("start_ch")?.as_str().parse().ok()?;
    let start_v: u32 = caps.name("start_v")?.as_str().parse().ok()?;
    let end_ch: u32 = if let Some(m) = caps.name("end_ch") {
        m.as_str().parse().ok()?
    } else {
        start_ch
    };
    let end_v: u32 = caps.name("end_v")?.as_str().parse().ok()?;
    Some(range(&book, start_ch, start_v, end_ch, end_v))
}

#[test]
fn parse_range_within_one_chapter() {
    assert_eq!(parse_lookup("Gen 6:1-6"), Some(range("Gen", 6, 1, 6, 6)));
}

#[test]
fn parse_range_across_chapters() {
    assert_eq!(parse_lookup("Gen 6:1-7:2"), Some(range("Gen", 6, 1, 7, 2)));
}

#[test]
fn parse_rejects_what_is_no_reference() {
    assert_eq!(parse_lookup("not a ref"), None);
    assert_eq!(parse_lookup(""), None);
    assert_eq!(parse_lookup("Gen"), None);
    assert_eq!(parse_lookup("Gen "), None);
    assert_eq!(parse_lookup("Gen 6"), None);
    assert_eq!(parse_lookup("Gen 6:1"), None);
    assert_eq!(parse_lookup("Gen 6:1-"), None);
    assert_eq!(parse_lookup("Gen 6:1-7:"), None);
    assert_eq!(parse_lookup("Gen 6:1-7:2:3"), None);
    assert_eq!(parse_lookup("Gen 6:1-7-8"), None);
    assert_eq!(parse_lookup("Gen 6-1:7"), None);
    assert_eq!(parse_lookup("Gen :1-6"), None);
    assert_eq!(parse_lookup("Gen 6:-6"), None);
    assert_eq!(parse_lookup("6:1-6"), None);
}

#[test]
fn parse_is_anchored_at_both_ends() {
    assert_eq!(parse_lookup(" Gen 6:1-6"), None);
    assert_eq!(parse_lookup("Gen 6:1-6 "), None);
    assert_eq!(parse_lookup("Gen 6:1-6\n"), None);
    assert_eq!(parse_lookup("Gen 6:1-6x"), None);
    assert_eq!(parse_lookup("Gen 6 :1-6"), None);
    assert_eq!(parse_lookup("Gen 6: 1-6"), None);
    assert_eq!(parse_lookup("Gen 6:1 - 6"), None);
    assert_eq!(parse_lookup("Gen Exo 6:1-6"), None);
}

#[test]
fn parse_takes_any_white_space_after_the_key() {
    assert_eq!(parse_lookup("Gen   6:1-6"), Some(range("Gen", 6, 1, 6, 6)));
    assert_eq!(parse_lookup("Gen\t6:1-6"), Some(range("Gen", 6, 1, 6, 6)));
    assert_eq!(parse_lookup("Gen\u{a0}\u{3000}6:1-6"), Some(range("Gen", 6, 1, 6, 6)));
}

#[test]
fn parse_keeps_the_key_as_typed() {
    assert_eq!(parse_lookup("gen 1:1-2"), Some(range("gen", 1, 1, 1, 2)));
    assert_eq!(parse_lookup("1Sam 1:1-2"), Some(range("1Sam", 1, 1, 1, 2)));
    assert_eq!(parse_lookup("a:b-c 1:1-2"), Some(range("a:b-c", 1, 1, 1, 2)));
    assert_eq!(parse_lookup("\u{391}\u{3c0} 1:1-2"), Some(range("\u{391}\u{3c0}", 1, 1, 1, 2)));
    assert_eq!(parse_lookup("1:1-2 1:1-2"), Some(range("1:1-2", 1, 1, 1, 2)));
}

#[test]
fn parse_does_not_order_the_two_ends() {
    assert_eq!(parse_lookup("Gen 7:2-6:1"), Some(range("Gen", 7, 2, 6, 1)));
    assert_eq!(parse_lookup("Gen 6:9-3"), Some(range("Gen", 6, 9, 6, 3)));
    assert_eq!(parse_lookup("Gen 0:0-0"), Some(range("Gen", 0, 0, 0, 0)));
}

#[test]
fn parse_reads_numbers_of_up_to_32_bits() {
    assert_eq!(
        parse_lookup("Gen 4294967295:4294967295-4294967295:4294967295"),
        Some(range("Gen", u32::MAX, u32::MAX, u32::MAX, u32::MAX))
    );
    assert_eq!(parse_lookup("Gen 4294967296:1-2"), None);
    assert_eq!(parse_lookup("Gen 1:4294967296-2"), None);
    assert_eq!(parse_lookup("Gen 1:1-4294967296:2"), None);
    assert_eq!(parse_lookup("Gen 1:1-2:4294967296"), None);
    assert_eq!(parse_lookup("Gen 1:1-99999999999999999999999999"), None);
    assert_eq!(parse_lookup("Gen 0006:01-0007:002"), Some(range("Gen", 6, 1, 7, 2)));
    assert_eq!(
        parse_lookup("Gen 000000000000000000000000000001:1-2"),
        Some(range("Gen", 1, 1, 1, 2))
    );
}

#[test]
fn parse_takes_ascii_digits_only() {
    assert_eq!(parse_lookup("Gen \u{663}:1-2"), None);
    assert_eq!(parse_lookup("Gen 1:\u{ff11}-2"), None);
    assert_eq!(parse_lookup("Gen +1:1-2"), None);
    assert_eq!(parse_lookup("Gen -1:1-2"), None);
}

#[test]
fn parse_agrees_with_the_pattern() {
    let re = pattern();
    let parts = ["Gen", " ", "\t", "6", ":", "-", "x", "", "4294967296", "\u{663}", "\n"];
    let mut count = 0;
    for a in parts {
        for b in parts {
            for c in parts {
                for d in [":", "-", "1"] {
                    for e in ["1-6", "1-7:2", "1-", "1-7:", "1-6 ", "1", ""] {
                        let query = format!("{}{}{}{}{}", a, b, c, d, e);
                        assert_eq!(parse_lookup(&query), parse_with_pattern(&re, &query), "{:?}", query);
                        count += 1;
                    }
                }
            }
        }
    }
    assert_eq!(count, 11 * 11 * 11 * 3 * 7);
    assert_eq!(parse_with_pattern(&re, "Gen 6:1-7:2"), Some(range("Gen", 6, 1, 7, 2)));
    assert_eq!(parse_with_pattern(&re, "Gen 6:1-6"), Some(range("Gen", 6, 1, 6, 6)));
}

#[test]
fn verse_key_is_chapter_times_thousand_plus_verse() {
    assert_eq!(key_of(6, 1), 6001);
    assert_eq!(key_of(0, 0), 0);
    assert_eq!(key_of(1, 999), 1999);
    assert_eq!(key_of(1, 1000), 2000);
    assert_eq!(key_of(u32::MAX, u32::MAX), 4294967295u64 * 1000 + 4294967295u64);
}

#[test]
fn range_covers_its_two_ends_and_what_lies_between() {
    let r = range("Gen", 6, 1, 7, 2);
    assert!(r.covers(6, 1));
    assert!(r.covers(6, 999));
    assert!(r.covers(7, 1));
    assert!(r.covers(7, 2));
    assert!(!r.covers(6, 0));
    assert!(!r.covers(7, 3));
    assert!(!r.covers(5, 999));
    assert!(!r.covers(8, 1));
}

#[test]
fn inverted_range_covers_nothing() {
    let r = range("Gen", 7, 2, 6, 1);
    for chapter in 0..12 {
        for verse in 0..1200 {
            assert!(!r.covers(chapter, verse));
        }
    }
    assert!(!r.covers(u32::MAX, u32::MAX));
}
