use http_proxy::proxyssl::{check_headers, connect_response, Header, HeaderReader, MethodReader, Tunnel};
use http_proxy::relay::Step;
use http_proxy::text::REQUEST_LEN;

fn line(s: &[u8]) -> [u8; REQUEST_LEN] {
    let mut b = [0u8; REQUEST_LEN];
    b[..s.len()].copy_from_slice(s);
    b
}

fn method_of(bytes: &[u8]) -> (String, usize) {
    let mut m = MethodReader::new();
    let mut used = 0;
    while !m.is_done() && used < bytes.len() {
        m.feed(1, bytes[used]);
        used += 1;
    }
    (m.finish(), used)
}

#[test]
fn ssl_header_new_is_empty() {
    let h = Header::new();
    assert_eq!(h.hostname, "");
    assert_eq!(h.connection, "");
    assert_eq!(h.proxy, "");
    assert_eq!(h.agent, "");
}

#[test]
fn method_reader_keeps_only_connect() {
    assert_eq!(method_of(b"CONNECT host:443 HTTP/1.1\r\n"), (String::from("CONNECT"), 8));
    assert_eq!(method_of(b"GET / HTTP/1.1\r\n"), (String::new(), 4));
}

#[test]
fn ssl_check_headers_reads_four_fields() {
    let mut h = Header::new();
    assert!(!check_headers(line(b"Host: a.b:443\r\n"), &mut h));
    assert_eq!(h.hostname, "a.b:443");
    assert!(!check_headers(line(b"User-Agent: curl\r\n"), &mut h));
    assert!(check_headers(line(b"Proxy-Connection: keep-alive\r\n"), &mut h));
    // "Connection: " is found inside "Proxy-Connection: " first
    assert_eq!(h.connection, "keep-alive");
    assert_eq!(h.proxy, "keep-alive");
    assert_eq!(h.agent, "curl");
    assert!(check_headers(line(b"Connection: close\r\n"), &mut h));
    assert_eq!(h.connection, "keep-alive");
}

#[test]
fn ssl_header_reader_ends_on_empty_line() {
    let lines = b" host:443 HTTP/1.1\r\nHost: host:443\r\nUser-Agent: ua\r\nProxy-Connection: k\r\n\r\nrest";
    let mut h = Header::new();
    let mut r = HeaderReader::new();
    let mut used = 0;
    let mut finished_lines = 0;
    while !r.is_done() {
        assert!(r.fits(1, lines[used]));
        if r.feed(&mut h, 1, lines[used]) {
            finished_lines += 1;
        }
        used += 1;
    }
    assert_eq!(finished_lines, 5);
    assert_eq!(used, lines.len() - 4);
    assert_eq!(h.hostname, "host:443");
    assert_eq!(h.connection, "k");
    assert_eq!(&r.buffer()[..3], b"\r\n\0");
}

#[test]
fn connect_response_echoes_fields() {
    let mut h = Header::new();
    h.hostname = String::from("h:443");
    h.connection = String::from("c");
    h.proxy = String::from("p");
    h.agent = String::from("a");
    assert_eq!(
        connect_response(&h),
        "HTTP/1.1 200 Connection established\r\nUser-Agent: a\r\nProxy-Connection: p\r\nConnection: c\r\nHost: h:443\r\n\r\n"
    );
}

#[test]
fn tunnel_ends_after_first_good_round() {
    let mut t = Tunnel::new();
    assert_eq!(t.next(), Step::Read);
    t.read_done(0);
    assert_eq!(t.next(), Step::Read);
    t.read_done(5);
    assert_eq!(t.next(), Step::Write(5));
    t.write_done(0);
    assert_eq!(t.next(), Step::Read);
    t.read_done(5);
    t.write_done(3);
    assert_eq!(t.next(), Step::Write(5));
    t.write_done(2);
    assert_eq!(t.next(), Step::Stop);
}
