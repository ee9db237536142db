//! Times, durations, texts, searching and migrations.

use rewind::migrations::pending;
use rewind::search::like_pattern;
use rewind::text;
use rewind::text_map::TextMap;
use rewind::util::{
    format_clock, format_duration_ms, format_timestamp, truncate, FIRST_SECOND, LAST_SECOND,
    YEAR_ZERO,
};

#[test]
fn duration_formatting() {
    assert_eq!(format_duration_ms(500), "500ms");
    assert_eq!(format_duration_ms(1500), "1.50s");
    assert_eq!(format_duration_ms(65_000), "1m05s");
}

#[test]
fn seconds_are_rounded_as_floating_point_is() {
    for ms in 1000u64..60_000 {
        assert_eq!(format_duration_ms(ms), format!("{:.2}s", ms as f64 / 1000.0), "{ms}");
    }
}

#[test]
fn timestamp_is_rfc3339() {
    // 2021-01-01T00:00:00Z == 1609459200000 ms
    let s = format_timestamp(1_609_459_200_000);
    assert!(s.starts_with("2021-01-01T00:00:00"));
    assert_eq!(format_timestamp(1_609_459_200_123), "2021-01-01T00:00:00.123Z");
    assert_eq!(format_timestamp(0), "1970-01-01T00:00:00Z");
}

#[test]
fn times_out_of_range_are_told_as_numbers() {
    assert_eq!(format_timestamp(LAST_SECOND * 1000), "9999-12-31T23:59:59Z");
    let after = (LAST_SECOND + 1) * 1000;
    assert_eq!(format_timestamp(after), after.to_string());
    assert_eq!(format_timestamp(YEAR_ZERO * 1000), "0000-01-01T00:00:00Z");
    let before = YEAR_ZERO * 1000 - 1;
    assert_eq!(format_timestamp(before), before.to_string());
    assert_eq!(format_timestamp(i64::MAX), i64::MAX.to_string());
}

#[test]
fn clock_times() {
    assert_eq!(format_clock(0), "00:00:00");
    assert_eq!(format_clock(1_609_459_200_000 + 3_723_000), "01:02:03");
    assert_eq!(format_clock(-1000), "23:59:59");
    assert_eq!(format_clock(FIRST_SECOND * 1000), "00:00:00");
    assert_eq!(format_clock(FIRST_SECOND * 1000 - 1), "--:--:--");
    assert_eq!(format_clock(LAST_SECOND * 1000 + 999), "23:59:59");
    assert_eq!(format_clock((LAST_SECOND + 1) * 1000), "--:--:--");
    assert_eq!(format_clock(i64::MIN), "--:--:--");
}

#[test]
fn truncate_adds_ellipsis() {
    assert_eq!(truncate("hello", 10), "hello");
    assert_eq!(truncate("hello world", 5), "hell…");
}

#[test]
fn truncate_to_nothing() {
    assert_eq!(truncate("hello", 0), "");
    assert_eq!(truncate("hello", 1), "…");
    assert_eq!(truncate("h", 1), "h");
    assert_eq!(truncate("héé", 2), "h…");
}

#[test]
fn white_space_is_that_of_unicode() {
    for u in 0..=0x10ffffu32 {
        if let Some(c) = char::from_u32(u) {
            let s = format!("{c}x");
            assert_eq!(text::trim(&s), s.trim(), "{u:x}");
        }
    }
}

#[test]
fn lines_are_those_of_std() {
    for s in ["", "\n", "a", "a\n", "a\r\nb", "a\n\nb\n", "\r", "a\r\n\r\n", "x\ry\n"] {
        let want: Vec<String> = s.lines().map(|l| l.to_string()).collect();
        assert_eq!(text::lines(s), want, "{s:?}");
    }
}

#[test]
fn splitting_joining_and_padding() {
    assert_eq!(text::split_char("a;b;;", ';'), vec!["a", "b", "", ""]);
    let parts = vec!["a".to_string(), "b".to_string()];
    assert_eq!(text::join(&parts, ", "), "a, b");
    assert_eq!(text::split_once("k = v = w", " = "), Some(("k", "v = w")));
    assert_eq!(text::split_once("k", "="), None);
    assert_eq!(text::pad("é", 3), "é  ");
    assert_eq!(text::pad("long", 3), "long");
    assert_eq!(text::take_utf8("0123456789", 8), "01234567");
    assert_eq!(text::take_utf8("ééééé", 3), "é");
    assert_eq!(text::basename("a/b.rs"), "b.rs");
    assert_eq!(text::to_lower("ÀBc"), "Àbc");
}

#[test]
fn numbers_in_words() {
    assert_eq!(text::show_dec(u128::MAX), u128::MAX.to_string());
    assert_eq!(text::show_signed(i64::MIN), i64::MIN.to_string());
    assert_eq!(text::show_two(7), "07");
    let mut s = "x".to_string();
    text::push_hex(&mut s, 0xbeef);
    text::push_signed(&mut s, -5);
    assert_eq!(s, "xbeef-5");
}

#[test]
fn order_of_texts_is_that_of_std() {
    let words = ["", "a", "ab", "b", "B", "é", "\u{ffff}", "\u{10000}", "a/b", "a.b"];
    for a in words {
        for b in words {
            assert_eq!(text::less(a, b), a < b, "{a:?} {b:?}");
        }
    }
}

#[test]
fn map_keeps_its_keys_in_order() {
    let mut m: TextMap<u8> = TextMap::new();
    assert!(m.is_empty());
    for (k, v) in [("b", 1), ("a", 2), ("c", 3), ("b", 4)] {
        m.insert(k.to_string(), v);
    }
    assert_eq!(m.len(), 3);
    let all: Vec<(String, u8)> = (0..3).map(|i| (m.key_at(i).clone(), *m.value_at(i))).collect();
    assert_eq!(all, vec![("a".to_string(), 2), ("b".to_string(), 4), ("c".to_string(), 3)]);
    assert_eq!(m.get("b"), Some(&4));
    assert!(!m.contains_key("d"));
}

#[test]
fn patterns_are_escaped() {
    assert_eq!(like_pattern("cargo"), "%cargo%");
    assert_eq!(like_pattern("100%_\\"), "%100\\%\\_\\\\%");
    assert_eq!(like_pattern(""), "%%");
}

fn is_found(query: &str, summary: &str) -> bool {
    let conn = rusqlite::Connection::open_in_memory().unwrap();
    conn.query_row(
        "SELECT ?2 LIKE ?1 ESCAPE '\\'",
        [like_pattern(query), summary.to_string()],
        |r| r.get(0),
    )
    .unwrap()
}

#[test]
fn event_search() {
    let summaries = ["ran cargo test", "npm install"];
    let hits = summaries.iter().filter(|s| is_found("cargo", s)).count();
    assert_eq!(hits, 1);
}

#[test]
fn search_takes_the_query_as_it_stands() {
    assert!(is_found("CARGO", "ran cargo test"));
    assert!(is_found("50%", "at 50% now"));
    assert!(!is_found("50%", "at 500 now"));
    assert!(is_found("a_b", "x a_b y"));
    assert!(!is_found("a_b", "x acb y"));
    assert!(is_found("c:\\dir", "cd C:\\dir"));
    assert!(!is_found("\\", "none"));
    assert!(is_found("", "anything"));
    // Letters beyond ASCII are taken in their case.
    assert!(!is_found("É", "é"));
}

#[test]
fn pending_migrations() {
    assert_eq!(pending(0, 3), vec![1, 2, 3]);
    assert_eq!(pending(2, 3), vec![3]);
    assert!(pending(3, 3).is_empty());
    assert!(pending(9, 3).is_empty());
    assert_eq!(pending(-5, 1), vec![1]);
    assert_eq!(*pending(1, 7).last().unwrap(), 7);
}
