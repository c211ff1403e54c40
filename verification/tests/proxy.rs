use http_proxy::proxy::{Header, HeaderReader, Request, Route};
use http_proxy::relay::Step;
use http_proxy::text::REQUEST_LEN;

fn line(s: &[u8]) -> [u8; REQUEST_LEN] {
    let mut b = [0u8; REQUEST_LEN];
    b[..s.len()].copy_from_slice(s);
    b
}

fn read_into(bytes: &[u8], h: &mut Header) -> (bool, usize) {
    let mut reader = HeaderReader::new();
    let mut used = 0;
    while !reader.is_done() && used < bytes.len() {
        assert!(reader.fits(h, 1, bytes[used]));
        reader.feed(h, 1, bytes[used]);
        used += 1;
    }
    (reader.is_done(), used)
}

#[test]
fn request_new_has_empty_header() {
    let r = Request::new();
    assert_eq!(r.headers.hostname, "");
    assert_eq!(r.headers.resource, "");
    assert_eq!(r.headers.content_type, "");
    assert_eq!(r.headers.content_length, 0);
    assert_eq!(r.headers.method, "");
}

#[test]
fn header_field_readers() {
    let mut h = Header::new();
    assert_eq!(h.hostname(line(b"http://host.net/x HTTP/1.0\r\n")), "host.net");
    assert_eq!(h.content_type(line(b"Content-Type: image/png\r\n")), "image/png");
    assert_eq!(h.content_length(line(b"Content-Length: 77\r\n")), 77);
    assert_eq!(h.resource(line(b"abc\r\n")), "abc\r\n");
    assert_eq!(h.hostname, "");
}

#[test]
fn header_check_fills_fields() {
    let mut h = Header::new();
    h.method = String::from("POST");
    assert!(h.check(line(b"http://host.net/x HTTP/1.0\r\n")));
    assert!(h.check(line(b"Content-Length: 12\r\n")));
    assert!(h.check(line(b"Content-Type: a/b\r\n")));
    assert_eq!(h.hostname, "host.net");
    assert_eq!(h.content_length, 12);
    assert_eq!(h.content_type, "a/b");
}

#[test]
fn reader_reads_connect_request() {
    let req = b"CONNECT http://secure.example/ HTTP/1.1\r\n\r\n";
    let mut r = Request::new();
    let (done, used) = read_into(req, &mut r.headers);
    assert!(done);
    assert_eq!(used, req.len());
    assert_eq!(r.route(), Route::Connect);
    assert_eq!(r.connect_address(), "secure.example:443");
    assert_eq!(r.upstream_address(), "secure.example:80");
}

#[test]
fn reader_drops_unknown_method() {
    let mut h = Header::new();
    let (done, used) = read_into(b"BREW http://pot/ HTTP/1.1\r\n\r\n", &mut h);
    assert!(done);
    assert_eq!(used, 5);
    assert_eq!(h.method, "BREW");
    assert_eq!(h.hostname, "");
}

#[test]
fn reader_takes_long_methods() {
    let mut h = Header::new();
    let (done, used) = read_into(b"ABCDEFGHIJKLMNOPQRSTUVWXYZ ", &mut h);
    assert!(done);
    assert_eq!(used, 27);
    assert_eq!(h.method, "ABCDEFGHIJKLMNOPQRSTUVWXYZ");
}

#[test]
fn proxy_routes() {
    let mut r = Request::new();
    for (m, want) in [
        ("GET", Route::Get),
        ("POST", Route::Post),
        ("HEAD", Route::Head),
        ("OPTIONS", Route::Options),
        ("CONNECT", Route::Connect),
        ("PUT", Route::Unknown),
    ] {
        r.headers.method = String::from(m);
        assert_eq!(r.route(), want);
    }
}

#[test]
fn proxy_queries_are_exact() {
    let mut r = Request::new();
    r.headers.hostname = String::from("h.io");
    r.headers.resource = String::from("http://h.io/ HTTP/1.1\r\n");
    r.headers.content_type = String::from("t/x");
    r.headers.content_length = 3;
    assert_eq!(r.options_response(), "HTTP/1.1 200 OK\r\nAllow: GET,POST,HEAD,CONNECT,OPTIONS\r\n\r\n");
    assert_eq!(r.head_query(), "HEAD /http://h.io/ HTTP/1.1\r\n HTTP/1.1\r\nHost: h.io\r\n\r\n");
    assert_eq!(
        r.get_query(),
        "GET http://h.io/ HTTP/1.1\r\nHost: h.io\r\nConnection: close\r\n\r\n"
    );
    assert_eq!(
        r.post_query(),
        "POST http://h.io/ HTTP/1.1\r\nHost: h.io\r\nContent-Type: t/x\r\nContent-Length: 3\r\n\r\n"
    );
    let mut g = r.response_relay();
    assert_eq!(g.next(), Step::Read);
    g.read_done(3);
    assert_eq!(g.next(), Step::Write(3));
    g.write_done(3);
    assert_eq!(g.next(), Step::Stop);
}

#[test]
fn reader_reads_post_head_and_leaves_body() {
    let req = b"POST http://example.com/form HTTP/1.1\r\nContent-Type: text/plain\r\nContent-Length: 5\r\n\r\nhello";
    let mut r = Request::new();
    let (done, used) = read_into(req, &mut r.headers);
    assert!(done);
    assert_eq!(used, req.len() - 5);
    assert_eq!(r.headers.method, "POST");
    assert_eq!(r.headers.hostname, "example.com");
    assert_eq!(r.headers.resource, "http://example.com/form HTTP/1.1\r\n");
    assert_eq!(r.headers.content_type, "text/plain");
    assert_eq!(r.headers.content_length, 5);
}
