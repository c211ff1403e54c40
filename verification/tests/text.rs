use http_proxy::line::LineReader;
use http_proxy::text::{copy_until_nul, parse_number_field, push_decimal, substr, REQUEST_LEN};

fn line(s: &[u8]) -> [u8; REQUEST_LEN] {
    let mut b = [0u8; REQUEST_LEN];
    b[..s.len()].copy_from_slice(s);
    b
}

#[test]
fn substr_takes_value_at_line_start() {
    let b = line(b"Content-Type: text/html\r\n");
    assert_eq!(substr(b, "Content-Type: ", b'\r'), "text/html");
}

#[test]
fn substr_takes_host_up_to_slash() {
    let b = line(b"http://example.com/index.html HTTP/1.1\r\n");
    assert_eq!(substr(b, "http://", b'/'), "example.com");
}

#[test]
fn substr_tries_only_the_first_candidate() {
    let b = line(b"CType Content-Type: x\r\n");
    assert_eq!(substr(b, "Content-Type: ", b'\r'), "");
}

#[test]
fn substr_finds_needle_inside_line() {
    let b = line(b"Proxy-Connection: keep-alive\r\n");
    assert_eq!(substr(b, "Connection: ", b'\r'), "keep-alive");
}

#[test]
fn substr_stops_scanning_at_nul() {
    let b = line(b"\0Content-Type: x\r\n");
    assert_eq!(substr(b, "Content-Type: ", b'\r'), "");
}

#[test]
fn substr_with_empty_needle_is_empty() {
    let b = line(b"Content-Type: x\r\n");
    assert_eq!(substr(b, "", b'\r'), "");
}

#[test]
fn substr_value_ends_at_newline_without_terminator() {
    let b = line(b"Content-Type: abc\n");
    assert_eq!(substr(b, "Content-Type: ", b'\r'), "abc");
}

#[test]
fn substr_reads_bytes_as_latin1() {
    let b = line(b"Content-Type: caf\xe9\r\n");
    assert_eq!(substr(b, "Content-Type: ", b'\r'), "caf\u{e9}");
}

#[test]
fn substr_partial_match_is_empty() {
    let b = line(b"Content-Typ\r\n");
    assert_eq!(substr(b, "Content-Type: ", b'\r'), "");
}

#[test]
fn copy_until_nul_takes_whole_line() {
    let b = line(b"GET /x HTTP/1.1\r\n");
    assert_eq!(copy_until_nul(&b), "GET /x HTTP/1.1\r\n");
}

#[test]
fn number_field_trims_and_parses() {
    let b = line(b"Content-Length:  42 \r\n");
    assert_eq!(parse_number_field(&b, b"Content-Length: ", b'\r'), Some(42));
}

#[test]
fn number_field_accepts_plus_sign() {
    let b = line(b"Content-Length: +7\r\n");
    assert_eq!(parse_number_field(&b, b"Content-Length: ", b'\r'), Some(7));
}

#[test]
fn number_field_rejects_letters() {
    let b = line(b"Content-Length: 12a\r\n");
    assert_eq!(parse_number_field(&b, b"Content-Length: ", b'\r'), None);
}

#[test]
fn number_field_rejects_lone_plus() {
    let b = line(b"Content-Length: +\r\n");
    assert_eq!(parse_number_field(&b, b"Content-Length: ", b'\r'), None);
}

#[test]
fn number_field_rejects_blank_text() {
    let b = line(b"Content-Length:   \r\n");
    assert_eq!(parse_number_field(&b, b"Content-Length: ", b'\r'), None);
}

#[test]
fn number_field_rejects_overflow() {
    let b = line(b"Content-Length: 99999999999999999999999\r\n");
    assert_eq!(parse_number_field(&b, b"Content-Length: ", b'\r'), None);
}

#[test]
fn number_field_without_text_is_zero() {
    let b = line(b"Host: a\r\n");
    assert_eq!(parse_number_field(&b, b"Content-Length: ", b'\r'), Some(0));
    let e = line(b"Content-Length: \r\n");
    assert_eq!(parse_number_field(&e, b"Content-Length: ", b'\r'), Some(0));
}

#[test]
fn number_field_trims_unicode_spaces_of_latin1() {
    let b = line(b"Content-Length: \xa05\x85\r\n");
    assert_eq!(parse_number_field(&b, b"Content-Length: ", b'\r'), Some(5));
}

#[test]
fn push_decimal_writes_digits() {
    let mut s = String::from("n=");
    push_decimal(&mut s, 0);
    assert_eq!(s, "n=0");
    let mut t = String::new();
    push_decimal(&mut t, 1234509);
    assert_eq!(t, "1234509");
    let mut u = String::new();
    push_decimal(&mut u, usize::MAX);
    assert_eq!(u, usize::MAX.to_string());
}

#[test]
fn decimal_then_parse_gives_number_back() {
    for n in [0usize, 7, 10, 99, 4096, 123456789, usize::MAX] {
        let mut text = String::from("Content-Length: ");
        push_decimal(&mut text, n);
        text.push_str("\r\n");
        let b = line(text.as_bytes());
        assert_eq!(parse_number_field(&b, b"Content-Length: ", b'\r'), Some(n));
    }
}

#[test]
fn line_reader_ends_line_at_newline() {
    let mut r = LineReader::new();
    let mut ended = None;
    for &c in b"ab\r\n" {
        assert!(r.fits(1, c));
        ended = r.feed(1, c);
    }
    assert_eq!(ended, Some(4));
    let b = r.buffer();
    assert_eq!(&b[..5], b"ab\r\n\0");
}

#[test]
fn line_reader_empty_read_repeats_byte_in_place() {
    let mut r = LineReader::new();
    assert_eq!(r.feed(1, b'a'), None);
    assert_eq!(r.feed(0, b'z'), None);
    assert_eq!(r.feed(1, b'\n'), Some(2));
    assert_eq!(&r.buffer()[..3], b"a\n\0");
}

#[test]
fn line_reader_starts_fresh_after_a_line() {
    let mut r = LineReader::new();
    for &c in b"long line\n" {
        r.feed(1, c);
    }
    for &c in b"x\n" {
        r.feed(1, c);
    }
    assert_eq!(&r.buffer()[..4], b"x\n\0\0");
}

#[test]
fn line_reader_refuses_overlong_line() {
    let mut r = LineReader::new();
    for _ in 0..REQUEST_LEN - 1 {
        assert!(r.fits(1, b'a'));
        r.feed(1, b'a');
    }
    assert!(!r.fits(1, b'\n'));
    assert!(r.fits(1, b'a'));
    r.feed(1, b'a');
    assert!(!r.fits(1, b'a'));
}
