use lc::text::{
    append_decimal, append_left_aligned, append_repeated, basename, decimal_string, first_segment,
};

#[test]
fn basename_is_the_final_segment() {
    assert_eq!(basename("/tmp/dir/a.txt"), "a.txt");
    assert_eq!(basename("dir/b.json"), "b.json");
    assert_eq!(basename("./c.png"), "c.png");
}

#[test]
fn basename_of_a_bare_name_is_the_name() {
    assert_eq!(basename("a.txt"), "a.txt");
}

#[test]
fn basename_after_a_trailing_separator_is_empty() {
    assert_eq!(basename("dir/"), "");
    assert_eq!(basename("/"), "");
}

#[test]
fn basename_of_the_empty_path_is_empty() {
    assert_eq!(basename(""), "");
}

#[test]
fn basename_keeps_characters_beyond_ascii() {
    assert_eq!(basename("/données/été.txt"), "été.txt");
}

#[test]
fn first_segment_is_what_precedes_the_first_separator() {
    assert_eq!(first_segment("image/png"), "image");
    assert_eq!(first_segment("application/vnd.ms-excel"), "application");
    assert_eq!(first_segment("a/b/c"), "a");
}

#[test]
fn first_segment_without_a_separator_is_the_whole() {
    assert_eq!(first_segment("text"), "text");
    assert_eq!(first_segment(""), "");
}

#[test]
fn first_segment_before_a_leading_separator_is_empty() {
    assert_eq!(first_segment("/x"), "");
}

#[test]
fn decimal_numerals() {
    assert_eq!(decimal_string(0), "0");
    assert_eq!(decimal_string(7), "7");
    assert_eq!(decimal_string(10), "10");
    assert_eq!(decimal_string(123), "123");
    assert_eq!(decimal_string(9_876_543_210), "9876543210");
    assert_eq!(decimal_string(u64::MAX), "18446744073709551615");
}

#[test]
fn decimal_numerals_agree_with_the_standard_formatting() {
    let mut n: u64 = 1;
    for _ in 0..19 {
        assert_eq!(decimal_string(n), format!("{}", n));
        assert_eq!(decimal_string(n - 1), format!("{}", n - 1));
        n *= 10;
    }
}

#[test]
fn append_decimal_keeps_what_was_there() {
    let mut out = String::from("n=");
    append_decimal(&mut out, 405);
    assert_eq!(out, "n=405");
}

#[test]
fn append_repeated_adds_the_copies() {
    let mut out = String::from(">");
    append_repeated(&mut out, "-", 5);
    assert_eq!(out, ">-----");
    append_repeated(&mut out, "ab", 2);
    assert_eq!(out, ">-----abab");
    append_repeated(&mut out, "x", 0);
    assert_eq!(out, ">-----abab");
}

#[test]
fn short_text_is_padded_to_the_width() {
    let mut out = String::new();
    append_left_aligned(&mut out, "abc", 6);
    assert_eq!(out, "abc   ");
    assert_eq!(out, format!("{:<6}", "abc"));
}

#[test]
fn text_of_the_width_or_longer_is_left_as_it_is() {
    let mut out = String::new();
    append_left_aligned(&mut out, "abcdef", 6);
    append_left_aligned(&mut out, "ghijklmn", 6);
    assert_eq!(out, "abcdefghijklmn");
}

#[test]
fn padding_counts_characters_not_bytes() {
    let mut out = String::new();
    append_left_aligned(&mut out, "été", 5);
    assert_eq!(out, "été  ");
    assert_eq!(out, format!("{:<5}", "été"));
}
