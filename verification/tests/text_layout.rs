//! Tests of the text layout engine, escaping, and decimal formatting.

use einkdash::layout::{wrap, layout_block};
use einkdash::text::{
    chars_of, string_from_chars, escape_chars, unescape_chars, replace_all, dec1_chars, dec2_chars,
    idec_chars, pad2_chars, udec_chars,
};

fn s(v: &Vec<char>) -> String {
    string_from_chars(v)
}

#[test]
fn wrap_fitting_text_is_one_line() {
    let lines = wrap("hello world", 11);
    assert_eq!(lines, vec!["hello world".to_string()]);
    let lines = wrap("hello world", 30);
    assert_eq!(lines, vec!["hello world".to_string()]);
}

#[test]
fn wrap_breaks_greedily() {
    let lines = wrap("aa bb cc dd", 5);
    assert_eq!(lines, vec!["aa bb".to_string(), "cc dd".to_string()]);
}

#[test]
fn wrap_never_splits_short_words() {
    let lines = wrap("alpha beta gamma", 6);
    for line in &lines {
        for word in line.split(' ') {
            assert!("alpha beta gamma".split(' ').any(|w| w == word));
        }
    }
    assert_eq!(lines, vec!["alpha".to_string(), "beta".to_string(), "gamma".to_string()]);
}

#[test]
fn wrap_overflows_single_long_word() {
    let lines = wrap("abcdefgh", 3);
    assert_eq!(lines, vec!["abcdefgh".to_string()]);
}

#[test]
fn wrap_empty_text_is_one_empty_line() {
    let lines = wrap("", 10);
    assert_eq!(lines, vec!["".to_string()]);
}

#[test]
fn layout_block_respects_max_lines() {
    let items = vec![
        "one two three four five six seven eight nine ten".to_string(),
        "more words that would not fit at all".to_string(),
        "and even more".to_string(),
    ];
    let runs = layout_block(&items, 4, 5, 0, 0, 10, 12);
    assert!(runs.len() <= 4);
}

#[test]
fn layout_block_truncation_emits_ellipsis_last() {
    let items = vec!["one two three four five six seven eight".to_string()];
    let runs = layout_block(&items, 3, 5, 0, 0, 10, 12);
    assert_eq!(runs.len(), 3);
    assert_eq!(runs[runs.len() - 1].text, "* * *".to_string());
}

#[test]
fn layout_block_never_starts_later_item_past_cap() {
    let items = vec!["first".to_string(), "second".to_string(), "third".to_string()];
    let runs = layout_block(&items, 2, 20, 0, 0, 10, 12);
    // The first item always shows; the second would reach the cap.
    assert_eq!(runs.len(), 1);
    assert_eq!(runs[0].text, "first".to_string());
}

#[test]
fn layout_block_positions_advance_by_line_height() {
    let items = vec!["aa bb".to_string()];
    let runs = layout_block(&items, 10, 2, 7, 100, 10, 12);
    assert_eq!(runs.len(), 2);
    assert_eq!(runs[0].x, 7);
    assert_eq!(runs[0].y, 100);
    assert_eq!(runs[1].y, 112);
}

#[test]
fn escape_round_trip_reproduces_text() {
    let original = "a <b> & \"c\" 'd' && <<>>";
    let escaped = escape_chars(&chars_of(original));
    let back = unescape_chars(&escaped);
    assert_eq!(s(&back), original.to_string());
}

#[test]
fn escape_produces_entities() {
    let escaped = escape_chars(&chars_of("<&>\"'"));
    assert_eq!(s(&escaped), "&lt;&amp;&gt;&quot;&apos;".to_string());
}

#[test]
fn replace_all_replaces_every_occurrence() {
    let t = chars_of("x #K y #K z");
    let pat = chars_of("#K");
    let rep = chars_of("val");
    assert_eq!(s(&replace_all(&t, &pat, &rep)), "x val y val z".to_string());
}

#[test]
fn replace_all_is_leftmost_non_overlapping() {
    let t = chars_of("aaa");
    let pat = chars_of("aa");
    let rep = chars_of("b");
    assert_eq!(s(&replace_all(&t, &pat, &rep)), "ba".to_string());
}

#[test]
fn decimal_formatting_is_exact() {
    assert_eq!(s(&udec_chars(0)), "0".to_string());
    assert_eq!(s(&udec_chars(907)), "907".to_string());
    assert_eq!(s(&idec_chars(-42)), "-42".to_string());
    assert_eq!(s(&dec2_chars(123)), "1.23".to_string());
    assert_eq!(s(&dec2_chars(-50)), "-0.50".to_string());
    assert_eq!(s(&dec2_chars(7)), "0.07".to_string());
    assert_eq!(s(&dec1_chars(215)), "21.5".to_string());
    assert_eq!(s(&dec1_chars(-5)), "-0.5".to_string());
    assert_eq!(s(&pad2_chars(7)), "07".to_string());
    assert_eq!(s(&pad2_chars(59)), "59".to_string());
    assert_eq!(s(&pad2_chars(123)), "123".to_string());
}
