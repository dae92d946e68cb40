use lc::lines::linecount;

#[test]
fn empty_content_has_no_line() {
    assert_eq!(linecount(b""), 0);
}

#[test]
fn terminated_lines_are_counted() {
    assert_eq!(linecount(b"one\ntwo\nthree\n"), 3);
}

#[test]
fn unterminated_last_line_is_counted() {
    assert_eq!(linecount(b"one\ntwo"), 2);
    assert_eq!(linecount(b"one"), 1);
}

#[test]
fn a_lone_newline_is_one_line() {
    assert_eq!(linecount(b"\n"), 1);
}

#[test]
fn blank_lines_are_lines() {
    assert_eq!(linecount(b"\n\n\n"), 3);
    assert_eq!(linecount(b"a\n\nb\n"), 3);
    assert_eq!(linecount(b"a\n\nb"), 3);
}

#[test]
fn carriage_returns_do_not_end_lines() {
    assert_eq!(linecount(b"a\r\nb\r\n"), 2);
    assert_eq!(linecount(b"a\rb\rc"), 1);
}

#[test]
fn bytes_that_are_no_text_are_counted_too() {
    assert_eq!(linecount(&[0xff, 0xfe, 0x0a, 0x00, 0x0a, 0x80]), 3);
}

#[test]
fn many_lines_are_counted() {
    let content = vec![b'\n'; 100_000];
    assert_eq!(linecount(&content), 100_000);
}
