use shader_patch::decimal::{read_decimal, to_decimal};
use shader_patch::lines::{lines_of, push_line, text_of};
use shader_patch::text::{
    append, chars_of, contains, find_from, matches_at, replace, same, same_str, starts_with,
    string_of,
};

fn chars(s: &str) -> Vec<char> {
    s.chars().collect()
}

fn text(v: &[char]) -> String {
    v.iter().collect()
}

#[test]
fn characters_and_strings_convert_both_ways() {
    for s in ["", "abc", "mov r0, v3.xy", "\u{0661}\u{00e9}x"] {
        assert_eq!(chars_of(s), chars(s));
        assert_eq!(string_of(&chars(s)), s);
    }
}

#[test]
fn prefix_is_found_at_the_start_only() {
    assert!(starts_with(&chars("dcl_temps 2"), &chars("dcl_")));
    assert!(!starts_with(&chars(" dcl_temps 2"), &chars("dcl_")));
    assert!(!starts_with(&chars("dc"), &chars("dcl_")));
    assert!(starts_with(&chars("abc"), &chars("")));
    assert!(starts_with(&chars(""), &chars("")));
}

#[test]
fn needle_is_matched_at_an_offset() {
    let hay = chars("abcabc");
    assert!(matches_at(&hay, &chars("bc"), 1));
    assert!(matches_at(&hay, &chars("bc"), 4));
    assert!(!matches_at(&hay, &chars("bc"), 2));
    assert!(!matches_at(&hay, &chars("bc"), 5));
    assert!(matches_at(&hay, &chars(""), 6));
    assert!(!matches_at(&hay, &chars(""), 7));
}

#[test]
fn first_occurrence_from_an_offset() {
    let hay = chars("abcabc");
    assert_eq!(find_from(&hay, &chars("bc"), 0), Some(1));
    assert_eq!(find_from(&hay, &chars("bc"), 1), Some(1));
    assert_eq!(find_from(&hay, &chars("bc"), 2), Some(4));
    assert_eq!(find_from(&hay, &chars("bc"), 5), None);
    assert_eq!(find_from(&hay, &chars("x"), 0), None);
    assert_eq!(find_from(&hay, &chars("abcabcd"), 0), None);
    assert_eq!(find_from(&hay, &chars(""), 6), Some(6));
    assert_eq!(find_from(&hay, &chars(""), 7), None);
}

#[test]
fn containment_is_like_the_standard_one() {
    for (hay, needle) in
        [("// Input signature:", "Input signature:"), ("abc", "abcd"), ("", ""), ("abc", ""), ("aab", "ab")]
    {
        assert_eq!(contains(&chars(hay), &chars(needle)), hay.contains(needle));
    }
}

#[test]
fn replacing_is_like_the_standard_one() {
    for (hay, pat, rep) in [
        ("mad r0.xy, v3.xy, v3.zw", "v3.", "r2."),
        ("aaaa", "aa", "b"),
        ("aaa", "aa", "b"),
        ("abc", "x", "y"),
        ("", "x", "y"),
        ("v3.v3.v3.", "v3.", ""),
        ("abab", "ab", "abab"),
        ("v3", "v3.", "r2."),
    ] {
        assert_eq!(text(&replace(&chars(hay), &chars(pat), &chars(rep))), hay.replace(pat, rep));
    }
}

#[test]
fn empty_pattern_replaces_nothing() {
    assert_eq!(text(&replace(&chars("abc"), &chars(""), &chars("x"))), "abc");
}

#[test]
fn texts_compare_by_their_characters() {
    assert!(same(&chars("abc"), &chars("abc")));
    assert!(!same(&chars("abc"), &chars("abd")));
    assert!(!same(&chars("abc"), &chars("ab")));
    assert!(same_str("", ""));
    assert!(same_str("TEXCOORD", "TEXCOORD"));
    assert!(!same_str("TEXCOORD", "texcoord"));
}

#[test]
fn appending_copies_a_range() {
    let mut out = chars("ab");
    append(&mut out, &chars("01234"), 1, 4);
    assert_eq!(text(&out), "ab123");
    append(&mut out, &chars("01234"), 2, 2);
    assert_eq!(text(&out), "ab123");
}

#[test]
fn lines_are_like_the_standard_ones() {
    for s in [
        "",
        "a",
        "a\n",
        "a\nb",
        "a\n\nb\n",
        "\n",
        "\n\n",
        "a\r\nb\r\n",
        "a\rb\n",
        "a\r",
        "a\r\r\nb",
        "\r\n",
        "a\n\r",
    ] {
        let held = lines_of(&chars(s));
        let raw: Vec<String> = held.iter().map(|l| text(l)).collect();
        let expected_raw: Vec<String> = s.split_inclusive('\n').map(|l| l.to_string()).collect();
        assert_eq!(raw, expected_raw, "{:?}", s);
        assert_eq!(raw.concat(), s);
        let got: Vec<String> = held.iter().map(|l| text(&text_of(l))).collect();
        let expected: Vec<String> = s.lines().map(|l| l.to_string()).collect();
        assert_eq!(got, expected, "{:?}", s);
    }
}

#[test]
fn text_of_a_line_lacks_its_ending() {
    assert_eq!(text(&text_of(&chars("abc\n"))), "abc");
    assert_eq!(text(&text_of(&chars("abc\r\n"))), "abc");
    assert_eq!(text(&text_of(&chars("abc\r\r\n"))), "abc\r");
    assert_eq!(text(&text_of(&chars("abc\r"))), "abc\r");
    assert_eq!(text(&text_of(&chars("abc"))), "abc");
    assert_eq!(text(&text_of(&chars("\n"))), "");
    assert_eq!(text(&text_of(&chars(""))), "");
}

#[test]
fn line_is_pushed_with_its_line_feed() {
    let mut out = chars("x\n");
    push_line(&mut out, &chars("abc"));
    push_line(&mut out, &chars(""));
    assert_eq!(text(&out), "x\nabc\n\n");
    push_line(&mut out, &chars("d\r\n"));
    push_line(&mut out, &chars("e\n"));
    push_line(&mut out, &chars("f\r"));
    assert_eq!(text(&out), "x\nabc\n\nd\r\ne\nf\r\n");
}

#[test]
fn numbers_are_written_in_decimal() {
    assert_eq!(text(&to_decimal(0)), "0");
    assert_eq!(text(&to_decimal(7)), "7");
    assert_eq!(text(&to_decimal(10)), "10");
    assert_eq!(text(&to_decimal(120)), "120");
    assert_eq!(text(&to_decimal(9876543210)), "9876543210");
    assert_eq!(text(&to_decimal(u128::MAX)), u128::MAX.to_string());
}

#[test]
fn numbers_are_read_from_decimal() {
    assert_eq!(read_decimal(&chars("0")), Some(0));
    assert_eq!(read_decimal(&chars("42")), Some(42));
    assert_eq!(read_decimal(&chars("007")), Some(7));
    assert_eq!(read_decimal(&chars(&usize::MAX.to_string())), Some(usize::MAX));
    assert_eq!(read_decimal(&chars("")), None);
    assert_eq!(read_decimal(&chars("+5")), None);
    assert_eq!(read_decimal(&chars("-5")), None);
    assert_eq!(read_decimal(&chars("4x")), None);
    assert_eq!(read_decimal(&chars(" 4")), None);
    assert_eq!(read_decimal(&chars("\u{0664}")), None);
    let over = (usize::MAX as u128 + 1).to_string();
    assert_eq!(read_decimal(&chars(&over)), None);
    assert_eq!(read_decimal(&chars("99999999999999999999999999999999999999999")), None);
}

#[test]
fn written_numbers_read_back() {
    for n in [0usize, 1, 9, 10, 99, 100, 65535, usize::MAX] {
        assert_eq!(read_decimal(&to_decimal(n as u128)), Some(n));
    }
}
