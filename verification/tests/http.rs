use http_proxy::http::{
    check_headers, get_query, head_query, options_response, post_query, req_content,
    req_hostname, req_length, req_resource, response_relay, route, upload_relay,
    upstream_address, Header, RequestReader, Route,
};
use http_proxy::relay::Step;
use http_proxy::text::REQUEST_LEN;

fn line(s: &[u8]) -> [u8; REQUEST_LEN] {
    let mut b = [0u8; REQUEST_LEN];
    b[..s.len()].copy_from_slice(s);
    b
}

fn read_request(bytes: &[u8], headers: &mut Header) -> (RequestReader, usize) {
    let mut reader = RequestReader::new();
    let mut used = 0;
    while !reader.is_done() && used < bytes.len() {
        let b = bytes[used];
        assert!(reader.fits(headers, 1, b));
        reader.feed(headers, 1, b);
        used += 1;
    }
    (reader, used)
}

#[test]
fn header_new_is_empty() {
    let h = Header::new();
    assert_eq!(h.hostname, "");
    assert_eq!(h.resource, "");
    assert_eq!(h.content, "");
    assert_eq!(h.length, 0);
    assert_eq!(h.method, "");
}

#[test]
fn request_line_fields() {
    let b = line(b"http://example.com/a/b HTTP/1.1\r\n");
    assert_eq!(req_hostname(b), "example.com");
    assert_eq!(req_resource(b), "http://example.com/a/b HTTP/1.1\r\n");
    assert_eq!(req_content(b), "");
    assert_eq!(req_length(b), 0);
}

#[test]
fn content_lines_fields() {
    assert_eq!(req_content(line(b"Content-Type: text/plain\r\n")), "text/plain");
    assert_eq!(req_length(line(b"Content-Length: 1234\r\n")), 1234);
    assert_eq!(req_length(line(b"Content-Length: \r\n")), 0);
}

#[test]
fn check_headers_fills_empty_fields_only() {
    let mut h = Header::new();
    h.method = String::from("GET");
    assert!(check_headers(line(b"http://a.org/x HTTP/1.1\r\n"), &mut h));
    assert_eq!(h.hostname, "a.org");
    assert_eq!(h.resource, "http://a.org/x HTTP/1.1\r\n");
    assert!(check_headers(line(b"Content-Type: text/html\r\n"), &mut h));
    assert_eq!(h.hostname, "a.org");
    assert_eq!(h.resource, "http://a.org/x HTTP/1.1\r\n");
    assert_eq!(h.content, "text/html");
    assert!(check_headers(line(b"Content-Length: 5\r\n"), &mut h));
    assert_eq!(h.length, 5);
    assert!(check_headers(line(b"Content-Length: 9\r\n"), &mut h));
    assert_eq!(h.length, 5);
}

#[test]
fn check_headers_needs_method_and_host() {
    let mut h = Header::new();
    assert!(!check_headers(line(b"http://a.org/ HTTP/1.1\r\n"), &mut h));
    let mut g = Header::new();
    g.method = String::from("GET");
    assert!(!check_headers(line(b"GET / HTTP/1.1\r\n"), &mut g));
    assert_eq!(g.hostname, "");
    assert_eq!(g.resource, "GET / HTTP/1.1\r\n");
}

#[test]
fn reader_reads_whole_request() {
    let req = b"GET http://example.com/page HTTP/1.1\r\nHost: example.com\r\nContent-Length: 3\r\n\r\nabc";
    let mut h = Header::new();
    let (reader, used) = read_request(req, &mut h);
    assert!(reader.is_done());
    assert_eq!(used, req.len() - 3);
    assert_eq!(h.method, "GET");
    assert_eq!(h.hostname, "example.com");
    assert_eq!(h.resource, "http://example.com/page HTTP/1.1\r\n");
    assert_eq!(h.length, 3);
    assert_eq!(route(&h.method), Route::Get);
}

#[test]
fn reader_stops_after_sixteen_method_bytes() {
    let req = b"ABCDEFGHIJKLMNOPQRSTU http://x/ HTTP/1.1\r\n\r\n";
    let mut h = Header::new();
    let (reader, used) = read_request(req, &mut h);
    assert!(reader.is_done());
    assert_eq!(used, 16);
    assert_eq!(h.method, "ABCDEFGHIJKLMNOP");
}

#[test]
fn reader_stops_when_space_is_sixteenth_byte() {
    let req = b"ABCDEFGHIJKLMNO http://x/ HTTP/1.1\r\n\r\n";
    let mut h = Header::new();
    let (reader, used) = read_request(req, &mut h);
    assert!(reader.is_done());
    assert_eq!(used, 16);
    assert_eq!(h.hostname, "");
}

#[test]
fn reader_stops_on_empty_method() {
    let mut h = Header::new();
    let (reader, used) = read_request(b" http://x/ HTTP/1.1\r\n\r\n", &mut h);
    assert!(reader.is_done());
    assert_eq!(used, 1);
    assert_eq!(h.method, "");
}

#[test]
fn reader_goes_on_past_empty_line_while_incomplete() {
    let mut h = Header::new();
    let req = b"GET / HTTP/1.1\r\n\r\nhttp://late.org/ x\r\n\r\n";
    let (reader, used) = read_request(req, &mut h);
    assert!(reader.is_done());
    assert_eq!(used, req.len());
    assert_eq!(h.hostname, "late.org");
}

#[test]
fn reader_refuses_bad_content_length() {
    let mut h = Header::new();
    let mut reader = RequestReader::new();
    for &b in b"POST http://x/ HTTP/1.1\r\nContent-Length: ten\r" {
        assert!(reader.fits(&h, 1, b));
        reader.feed(&mut h, 1, b);
    }
    assert!(!reader.fits(&h, 1, b'\n'));
}

#[test]
fn reader_empty_reads_repeat_last_method_byte() {
    let mut h = Header::new();
    let mut reader = RequestReader::new();
    reader.feed(&mut h, 1, b'G');
    reader.feed(&mut h, 0, 0);
    assert_eq!(h.method, "GG");
}

#[test]
fn routes_by_method() {
    assert_eq!(route(&String::from("GET")), Route::Get);
    assert_eq!(route(&String::from("POST")), Route::Post);
    assert_eq!(route(&String::from("HEAD")), Route::Head);
    assert_eq!(route(&String::from("OPTIONS")), Route::Options);
    assert_eq!(route(&String::from("CONNECT")), Route::Connect);
    assert_eq!(route(&String::from("get")), Route::Unknown);
}

fn sample() -> Header {
    let mut h = Header::new();
    h.hostname = String::from("example.com");
    h.resource = String::from("http://example.com/p HTTP/1.1\r\n");
    h.content = String::from("text/plain");
    h.length = 42;
    h.method = String::from("POST");
    h
}

#[test]
fn queries_are_exact() {
    let h = sample();
    assert_eq!(
        get_query(&h),
        "GET http://example.com/p HTTP/1.1\r\nHost: example.com\r\nConnection: close\r\n\r\n"
    );
    assert_eq!(
        post_query(&h),
        "POST http://example.com/p HTTP/1.1\r\nHost: example.com\r\nContent-Type: text/plain\r\nContent-Length: 42\r\n\r\n"
    );
    assert_eq!(
        head_query(&h),
        "xHEAD /http://example.com/p HTTP/1.1\r\n HTTP/1.1\r\nHost: example.com\r\n\r\n"
    );
    assert_eq!(options_response(), "HTTP/1.1 200 OK\r\nAllow: GET,POST,HEAD,OPTIONS\r\n\r\n");
    assert_eq!(upstream_address(&h), "example.com:80");
}

#[test]
fn post_query_length_reads_back() {
    let mut h = sample();
    h.length = 987654321;
    let q = post_query(&h);
    let at = q.find("Content-Length: ").unwrap();
    let rest = &q.as_bytes()[at..];
    let end = rest.iter().position(|&c| c == b'\n').unwrap();
    assert_eq!(req_length(line(&rest[..=end])), 987654321);
}

#[test]
fn relays_follow_length() {
    let mut h = sample();
    let r = response_relay(&h);
    assert_eq!(r.next(), Step::Read);
    let u = upload_relay(&h);
    assert_eq!(u.next(), Step::Read);
    h.length = 0;
    let z = upload_relay(&h);
    assert_eq!(z.next(), Step::Stop);
    let mut open = response_relay(&h);
    assert_eq!(open.next(), Step::Read);
    open.read_done(0);
    assert_eq!(open.next(), Step::Stop);
}

#[test]
fn reader_stops_after_sixteen_empty_reads() {
    let mut h = Header::new();
    let mut reader = RequestReader::new();
    let mut reads = 0;
    while !reader.is_done() {
        assert!(reader.fits(&h, 0, 0));
        reader.feed(&mut h, 0, 0);
        reads += 1;
    }
    assert_eq!(reads, 16);
    assert_eq!(h.method, "\u{0}".repeat(16));
    assert_eq!(h.hostname, "");
    assert_eq!(h.length, 0);
}

#[test]
fn connect_request_routes_to_port_80_tunnel() {
    let req = b"CONNECT http://example.com/ HTTP/1.1\r\n\r\n";
    let mut h = Header::new();
    let (reader, used) = read_request(req, &mut h);
    assert!(reader.is_done());
    assert_eq!(used, req.len());
    assert_eq!(h.method, "CONNECT");
    assert_eq!(h.hostname, "example.com");
    assert_eq!(route(&h.method), Route::Connect);
    assert_eq!(upstream_address(&h), "example.com:80");
}

#[test]
fn filled_fields_stay_over_a_run_of_checks() {
    let mut h = Header::new();
    h.method = String::from("GET");
    let lines: [&[u8]; 5] = [
        b"/ HTTP/1.1\r\n",
        b"http://first.org/ x\r\n",
        b"Content-Length: 4\r\n",
        b"http://second.org/ y\r\n",
        b"Content-Length: 8\r\n",
    ];
    let mut results = Vec::new();
    for l in lines {
        results.push(check_headers(line(l), &mut h));
    }
    assert_eq!(results, vec![false, true, true, true, true]);
    assert_eq!(h.hostname, "first.org");
    assert_eq!(h.resource, "/ HTTP/1.1\r\n");
    assert_eq!(h.length, 4);
}
