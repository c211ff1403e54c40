use crate::line::{LineReader, lemma_line_after_is_line};
use crate::relay::Relay;
use crate::query::{address, address_text, allow_response, allow_text, get_request, get_text, post_request, post_text};
use crate::text::{
    REQUEST_LEN,
    copy_until_nul,
    decimal,
    is_digit,
    latin1,
    lemma_decimal_digits,
    lemma_decimal_parses,
    lemma_field_at_line_start,
    has_nul,
    is_line,
    lemma_line_has_nul,
    lemma_line_substr_ok,
    number_field,
    number_field_ok,
    parse_number_field,
    plain_needle,
    substr,
    substr_ok,
    substr_spec,
    text_before_nul,
};
use vstd::prelude::*;
use vstd::string::*;
use vstd::utf8::*;

verus! {

/// The field name in front of the host in the request line.
pub open spec fn host_key() -> Seq<u8> {
    "http://".spec_bytes()
}

/// The field name of the content type line.
pub open spec fn type_key() -> Seq<u8> {
    "Content-Type: ".spec_bytes()
}

/// The field name of the content length line.
pub open spec fn length_key() -> Seq<u8> {
    "Content-Length: ".spec_bytes()
}

/// The field names that this proxy looks for are plain.
pub proof fn lemma_keys_plain()
    ensures
        plain_needle(host_key()),
        plain_needle(type_key()),
        plain_needle(length_key()),
{
    reveal_strlit("http://");
    reveal_strlit("Content-Type: ");
    reveal_strlit("Content-Length: ");
    is_ascii_chars_encode_utf8("http://"@);
    is_ascii_chars_encode_utf8("Content-Type: "@);
    is_ascii_chars_encode_utf8("Content-Length: "@);
}


/// What the proxy has learnt of one request.
pub struct Header {
    pub hostname: String,
    pub resource: String,
    pub content: String,
    pub length: usize,
    pub method: String,
}

impl Header {
    /// A header with every field empty and a length of 0.
    pub fn new() -> (h: Header)
        ensures
            h.hostname@ == Seq::<char>::empty(),
            h.resource@ == Seq::<char>::empty(),
            h.content@ == Seq::<char>::empty(),
            h.length == 0,
            h.method@ == Seq::<char>::empty(),
    {
        let hostname = String::new();
        let resource = String::new();
        let content = String::new();
        let method = String::new();
        let length: usize = 0;
        let h = Header { hostname: hostname, resource: resource, content: content, length: length, method: method };
        h
    }
}

/// The whole line before its first NUL byte.
pub fn req_resource(buf: [u8; REQUEST_LEN]) -> (request: String)
    requires
        has_nul(buf@),
    ensures
        request@ == text_before_nul(buf@),
{
    copy_until_nul(&buf)
}

/// The text behind `Content-Type: ` up to the carriage return.
pub fn req_content(buf: [u8; REQUEST_LEN]) -> (content: String)
    requires
        substr_ok(buf@, type_key(), 13),
    ensures
        content@ == substr_spec(buf@, type_key(), 13),
{
    let content = substr(buf, "Content-Type: ", 13);
    content
}

/// The text behind `http://` up to the next slash.
pub fn req_hostname(buf: [u8; REQUEST_LEN]) -> (hostname: String)
    requires
        substr_ok(buf@, host_key(), 47),
    ensures
        hostname@ == substr_spec(buf@, host_key(), 47),
{
    let hostname: String = substr(buf, "http://", 47);
    hostname
}

/// The number behind `Content-Length: `, trimmed; 0 when there is no such text.
pub fn req_length(buf: [u8; REQUEST_LEN]) -> (length: usize)
    requires
        substr_ok(buf@, length_key(), 13),
        number_field_ok(buf@, length_key(), 13),
    ensures
        length == number_field(buf@, length_key(), 13),
{
    match parse_number_field(&buf, "Content-Length: ".as_bytes(), 13) {
        Some(v) => v,
        None => 0,
    }
}

/// The line can be read for every field that `check_headers` still has to fill.
pub open spec fn check_headers_ok(buf: Seq<u8>, h: Header) -> bool {
    &&& h.hostname@.len() == 0 ==> substr_ok(buf, host_key(), 47)
    &&& h.resource@.len() == 0 ==> has_nul(buf)
    &&& h.content@.len() == 0 ==> substr_ok(buf, type_key(), 13)
    &&& h.length == 0 ==> substr_ok(buf, length_key(), 13) && number_field_ok(buf, length_key(), 13)
}

/// The header after `check_headers` has read the line `buf`: each field that was still
/// empty (a length of 0) takes what the line gives for it; the others stay.
pub open spec fn checked_header(buf: Seq<u8>, h: Header, after: Header) -> bool {
    &&& after.hostname@ == if h.hostname@.len() == 0 {
        substr_spec(buf, host_key(), 47)
    } else {
        h.hostname@
    }
    &&& after.resource@ == if h.resource@.len() == 0 {
        text_before_nul(buf)
    } else {
        h.resource@
    }
    &&& after.content@ == if h.content@.len() == 0 {
        substr_spec(buf, type_key(), 13)
    } else {
        h.content@
    }
    &&& after.length == if h.length == 0 {
        number_field(buf, length_key(), 13)
    } else {
        h.length
    }
    &&& after.method == h.method
}

/// Whether the header is complete: host, resource and method all known.
pub open spec fn header_complete(h: Header) -> bool {
    h.hostname@.len() > 0 && h.resource@.len() > 0 && h.method@.len() > 0
}

/// Fills the fields still empty from the line, and says whether the header is complete.
pub fn check_headers(buffer: [u8; REQUEST_LEN], headers: &mut Header) -> (r: bool)
    requires
        check_headers_ok(buffer@, *old(headers)),
    ensures
        checked_header(buffer@, *old(headers), *final(headers)),
        r == header_complete(*final(headers)),
{
    if headers.hostname.as_str().is_empty() {
        headers.hostname = req_hostname(buffer);
    }
    if headers.resource.as_str().is_empty() {
        headers.resource = req_resource(buffer);
    }
    if headers.content.as_str().is_empty() {
        headers.content = req_content(buffer);
    }
    if headers.length == 0 {
        headers.length = req_length(buffer);
    }
    if headers.hostname.as_str().is_empty() || headers.resource.as_str().is_empty()
        || headers.method.as_str().is_empty() {
        return false;
    }
    return true;
}

/// The field names are the bytes `http://`, `Content-Type: ` and `Content-Length: `.
pub proof fn lemma_key_bytes()
    ensures
        host_key() == seq![104u8, 116u8, 116u8, 112u8, 58u8, 47u8, 47u8],
        type_key() == seq![67u8, 111u8, 110u8, 116u8, 101u8, 110u8, 116u8, 45u8, 84u8, 121u8, 112u8, 101u8, 58u8, 32u8],
        length_key() == seq![67u8, 111u8, 110u8, 116u8, 101u8, 110u8, 116u8, 45u8, 76u8, 101u8, 110u8, 103u8, 116u8, 104u8, 58u8, 32u8],
{
    reveal_strlit("http://");
    reveal_strlit("Content-Type: ");
    reveal_strlit("Content-Length: ");
    is_ascii_chars_encode_utf8("http://"@);
    is_ascii_chars_encode_utf8("Content-Type: "@);
    is_ascii_chars_encode_utf8("Content-Length: "@);
    assert(host_key() =~= seq![104u8, 116u8, 116u8, 112u8, 58u8, 47u8, 47u8]);
    assert(type_key() =~= seq![67u8, 111u8, 110u8, 116u8, 101u8, 110u8, 116u8, 45u8, 84u8, 121u8, 112u8, 101u8, 58u8, 32u8]);
    assert(length_key() =~= seq![67u8, 111u8, 110u8, 116u8, 101u8, 110u8, 116u8, 45u8, 76u8, 101u8, 110u8, 103u8, 116u8, 104u8, 58u8, 32u8]);
}

/// Each field that is empty before a line takes what the line gives for it, whatever the
/// other fields hold: the host behind `http://` up to `/`, the whole text before the NUL,
/// the content type behind `Content-Type: ` up to `\r`, the number behind `Content-Length: `.
pub proof fn lemma_empty_fields_take_the_line(buf: Seq<u8>, h: Header, after: Header)
    requires
        checked_header(buf, h, after),
    ensures
        h.hostname@.len() == 0 ==> after.hostname@ == substr_spec(buf, host_key(), 47),
        h.resource@.len() == 0 ==> after.resource@ == text_before_nul(buf),
        h.content@.len() == 0 ==> after.content@ == substr_spec(buf, type_key(), 13),
        h.length == 0 ==> after.length == number_field(buf, length_key(), 13),
        after.method == h.method,
{
}

/// A header is complete exactly when its host, resource and method are all non-empty; an
/// empty host, resource or method makes it incomplete.
pub proof fn lemma_complete_needs_host_resource_method(h: Header)
    ensures
        header_complete(h) <==> (h.hostname@.len() > 0 && h.resource@.len() > 0 && h.method@.len()
            > 0),
        h.hostname@.len() == 0 ==> !header_complete(h),
        h.resource@.len() == 0 ==> !header_complete(h),
        h.method@.len() == 0 ==> !header_complete(h),
{
}

/// A line that gives no host leaves a header without a host incomplete.
pub proof fn lemma_no_host_no_completion(buf: Seq<u8>, h: Header, after: Header)
    requires
        checked_header(buf, h, after),
        h.hostname@.len() == 0,
        substr_spec(buf, host_key(), 47).len() == 0,
    ensures
        !header_complete(after),
{
}

/// Once `check_headers` has filled a field, later lines leave it as it is, so a complete
/// header stays complete.
pub proof fn lemma_filled_fields_stay(buf: Seq<u8>, h: Header, after: Header)
    requires
        checked_header(buf, h, after),
    ensures
        h.hostname@.len() > 0 ==> after.hostname@ == h.hostname@,
        h.resource@.len() > 0 ==> after.resource@ == h.resource@,
        h.content@.len() > 0 ==> after.content@ == h.content@,
        h.length != 0 ==> after.length == h.length,
        header_complete(h) ==> header_complete(after),
{
}

/// Over any run of `check_headers` calls on one header, a field filled after one call keeps that
/// value after every later call, and once the header is complete it stays complete.
pub proof fn lemma_filled_fields_stay_over_runs(bufs: Seq<Seq<u8>>, hs: Seq<Header>, i: int, j: int)
    requires
        hs.len() == bufs.len() + 1,
        forall|k: int| 0 <= k < bufs.len() ==> checked_header(#[trigger] bufs[k], hs[k], hs[k + 1]),
        0 <= i <= j < hs.len(),
    ensures
        hs[i].hostname@.len() > 0 ==> hs[j].hostname@ == hs[i].hostname@,
        hs[i].resource@.len() > 0 ==> hs[j].resource@ == hs[i].resource@,
        hs[i].content@.len() > 0 ==> hs[j].content@ == hs[i].content@,
        hs[i].length != 0 ==> hs[j].length == hs[i].length,
        header_complete(hs[i]) ==> header_complete(hs[j]),
    decreases j - i,
{
    if i < j {
        assert(checked_header(bufs[i], hs[i], hs[i + 1]));
        lemma_filled_fields_stay(bufs[i], hs[i], hs[i + 1]);
        lemma_filled_fields_stay_over_runs(bufs, hs, i + 1, j);
    }
}

/// On a completed line `check_headers` can read every field but the length, which must be
/// a number when it is still to be filled.
pub proof fn lemma_line_check_ok(buf: Seq<u8>, len: int, h: Header)
    requires
        is_line(buf, len),
        h.length == 0 ==> number_field_ok(buf, length_key(), 13),
    ensures
        check_headers_ok(buf, h),
{
    lemma_keys_plain();
    lemma_line_substr_ok(buf, len, host_key(), 47);
    lemma_line_substr_ok(buf, len, type_key(), 13);
    lemma_line_substr_ok(buf, len, length_key(), 13);
    lemma_line_has_nul(buf, len);
}


/// The number of reads the method may take.
pub const METHOD_READS: usize = 16;

enum Stage {
    Method,
    Lines,
    Done,
}

/// Reads a request one byte at a time: first the method, up to the first space and within
/// `METHOD_READS` reads, then lines until a complete header is followed by an empty line.
pub struct RequestReader {
    stage: Stage,
    count: usize,
    byte: u8,
    line: LineReader,
}

impl RequestReader {
    /// The line reader is sound, and the method has taken fewer reads than allowed.
    pub closed spec fn wf(&self) -> bool {
        &&& self.line.wf()
        &&& self.stage is Method ==> self.count < METHOD_READS
    }

    /// Still reading the method.
    pub closed spec fn reading_method(&self) -> bool {
        self.stage is Method
    }

    /// Reading header lines.
    pub closed spec fn reading_lines(&self) -> bool {
        self.stage is Lines
    }

    /// The request has been read as far as it will be.
    pub closed spec fn done(&self) -> bool {
        self.stage is Done
    }

    /// A reader is in exactly one stage: reading the method, reading lines, or done.
    pub proof fn lemma_one_stage(&self)
        ensures
            self.reading_method() || self.reading_lines() || self.done(),
            !(self.reading_method() && self.reading_lines()),
            !(self.reading_method() && self.done()),
            !(self.reading_lines() && self.done()),
    {
    }

    /// Reads taken for the method.
    pub closed spec fn count(&self) -> usize {
        self.count
    }

    /// The byte that the last read left in the one-byte buffer of the method reads.
    pub closed spec fn byte(&self) -> u8 {
        self.byte
    }

    /// The line being read.
    pub closed spec fn line(&self) -> LineReader {
        self.line
    }

    /// Taking a read of `n` bytes that delivered `b` stays inside the line buffer and, when it
    /// ends a line while the length is still 0, finds a number (or nothing) for the length.
    pub open spec fn can_feed(&self, h: Header, n: usize, b: u8) -> bool {
        &&& n <= 1
        &&& !self.done()
        &&& self.reading_lines() ==> {
            &&& self.line().can_feed(n, b)
            &&& (self.line().next_byte(n, b) == 10 && h.length == 0) ==> number_field_ok(
                self.line().line_after(n, b),
                length_key(),
                13,
            )
        }
    }

    /// A reader before the first byte of a request.
    pub fn new() -> (r: Self)
        ensures
            r.wf(),
            r.reading_method(),
            !r.reading_lines(),
            !r.done(),
            r.count() == 0,
            r.byte() == 0,
    {
        RequestReader { stage: Stage::Method, count: 0, byte: 0, line: LineReader::new() }
    }

    /// Whether the request has been read as far as it will be.
    pub fn is_done(&self) -> (r: bool)
        ensures
            r == self.done(),
    {
        match self.stage {
            Stage::Done => true,
            _ => false,
        }
    }

    /// Whether `feed(headers, n, b)` may be called.
    pub fn fits(&self, headers: &Header, n: usize, b: u8) -> (r: bool)
        requires
            self.wf(),
        ensures
            r == self.can_feed(*headers, n, b),
    {
        if n > 1 {
            return false;
        }
        match self.stage {
            Stage::Method => true,
            Stage::Done => false,
            Stage::Lines => {
                if !self.line.fits(n, b) {
                    return false;
                }
                let next = if n == 1 {
                    b
                } else {
                    self.line.last_byte()
                };
                if next != 10 || headers.length != 0 {
                    return true;
                }
                let buf = self.line.peek_line(n, b);
                proof {
                    lemma_line_after_is_line(self.line, n, b);
                    lemma_keys_plain();
                    lemma_line_substr_ok(buf@, (self.line.pending().len() + 1) as int, length_key(), 13);
                }
                parse_number_field(&buf, "Content-Length: ".as_bytes(), 13).is_some()
            },
        }
    }

    /// Takes one read of `n` bytes that delivered `b`, into the method or into the line; a
    /// finished line goes through `check_headers`.
    pub fn feed(&mut self, headers: &mut Header, n: usize, b: u8)
        requires
            old(self).wf(),
            old(self).can_feed(*old(headers), n, b),
        ensures
            final(self).wf(),
            old(self).reading_method() ==> {
                let byte = if n == 1 {
                    b
                } else {
                    old(self).byte()
                };
                let method = if byte != 32 {
                    old(headers).method@.push(byte as char)
                } else {
                    old(headers).method@
                };
                let count = old(self).count() + 1;
                &&& final(headers).method@ == method
                &&& final(headers).hostname == old(headers).hostname
                &&& final(headers).resource == old(headers).resource
                &&& final(headers).content == old(headers).content
                &&& final(headers).length == old(headers).length
                &&& final(self).byte() == byte
                &&& final(self).count() == count
                &&& if byte == 32 || count == METHOD_READS {
                    if count == METHOD_READS || method.len() == 0 {
                        &&& final(self).done()
                        &&& !final(self).reading_method()
                        &&& !final(self).reading_lines()
                    } else {
                        &&& final(self).reading_lines()
                        &&& !final(self).reading_method()
                        &&& !final(self).done()
                        &&& final(self).line().at_line_start()
                        &&& final(self).line().pending() == Seq::<u8>::empty()
                        &&& final(self).line().last() == 0
                    }
                } else {
                    &&& final(self).reading_method()
                    &&& !final(self).reading_lines()
                    &&& !final(self).done()
                }
            },
            old(self).reading_lines() ==> {
                let l = old(self).line();
                if l.next_byte(n, b) == 10 {
                    &&& checked_header(l.line_after(n, b), *old(headers), *final(headers))
                    &&& final(self).line().at_line_start()
                    &&& final(self).line().pending() == Seq::<u8>::empty()
                    &&& final(self).line().last() == 0
                    &&& !final(self).reading_method()
                    &&& final(self).done() <==> (header_complete(*final(headers))
                        && l.pending().len() + 1 == 2)
                    &&& !final(self).done() <==> final(self).reading_lines()
                } else {
                    &&& *final(headers) == *old(headers)
                    &&& final(self).reading_lines()
                    &&& !final(self).reading_method()
                    &&& !final(self).done()
                    &&& final(self).line().pending() == if n == 1 {
                        l.pending().push(b)
                    } else {
                        l.pending()
                    }
                    &&& final(self).line().last() == l.next_byte(n, b)
                }
            },
    {
        match self.stage {
            Stage::Method => {
                if n == 1 {
                    self.byte = b;
                }
                if self.byte != 32 {
                    push_method_char(&mut headers.method, self.byte);
                }
                self.count = self.count + 1;
                if self.byte == 32 || self.count == METHOD_READS {
                    if self.count == METHOD_READS || headers.method.as_str().is_empty() {
                        self.stage = Stage::Done;
                    } else {
                        self.stage = Stage::Lines;
                        self.line = LineReader::new();
                    }
                }
            },
            Stage::Lines => {
                let ghost l = self.line;
                proof {
                    if l.next_byte(n, b) == 10 {
                        lemma_line_after_is_line(l, n, b);
                    }
                }
                match self.line.feed(n, b) {
                    Some(len) => {
                        let buf = *self.line.buffer();
                        proof {
                            lemma_line_check_ok(buf@, len as int, *headers);
                        }
                        if check_headers(buf, headers) && len == 2 {
                            self.stage = Stage::Done;
                        }
                    },
                    None => {},
                }
            },
            Stage::Done => {},
        }
    }
}

/// Appends the byte `b`, as a char, to the method.
fn push_method_char(method: &mut String, b: u8)
    ensures
        final(method)@ == old(method)@.push(b as char),
{
    crate::text::push_char(method, b as char);
}


/// Where a request goes, by its method.
#[derive(Clone, Copy, Debug, PartialEq, Eq, Structural)]
pub enum Route {
    Get,
    Post,
    Head,
    Options,
    Connect,
    Unknown,
}

/// The route of a method: `GET`, `POST`, `HEAD`, `OPTIONS` and `CONNECT` have one, every
/// other method is unknown.
pub open spec fn route_of(method: Seq<char>) -> Route {
    if method == "GET"@ {
        Route::Get
    } else if method == "POST"@ {
        Route::Post
    } else if method == "HEAD"@ {
        Route::Head
    } else if method == "OPTIONS"@ {
        Route::Options
    } else if method == "CONNECT"@ {
        Route::Connect
    } else {
        Route::Unknown
    }
}

/// `GET`, `POST`, `HEAD`, `OPTIONS` and `CONNECT` each go to their own route, and a method
/// that is none of them (other case, other spelling) is unknown.
pub proof fn lemma_routes(m: Seq<char>)
    ensures
        route_of("GET"@) == Route::Get,
        route_of("POST"@) == Route::Post,
        route_of("HEAD"@) == Route::Head,
        route_of("OPTIONS"@) == Route::Options,
        route_of("CONNECT"@) == Route::Connect,
        (m != "GET"@ && m != "POST"@ && m != "HEAD"@ && m != "OPTIONS"@ && m != "CONNECT"@)
            ==> route_of(m) == Route::Unknown,
{
    reveal_strlit("GET");
    reveal_strlit("POST");
    reveal_strlit("HEAD");
    reveal_strlit("OPTIONS");
    reveal_strlit("CONNECT");
    assert("GET"@[0] == 'G' && "POST"@[0] == 'P' && "HEAD"@[0] == 'H' && "OPTIONS"@[0] == 'O'
        && "CONNECT"@[0] == 'C');
}

/// Chooses the route for the method of a request.
pub fn route(method: &String) -> (r: Route)
    ensures
        r == route_of(method@),
{
    if *method == String::from_str("GET") {
        Route::Get
    } else if *method == String::from_str("POST") {
        Route::Post
    } else if *method == String::from_str("HEAD") {
        Route::Head
    } else if *method == String::from_str("OPTIONS") {
        Route::Options
    } else if *method == String::from_str("CONNECT") {
        Route::Connect
    } else {
        Route::Unknown
    }
}

/// The query sent upstream for a GET request.
pub fn get_query(headers: &Header) -> (query: String)
    ensures
        query@ == get_text(headers.resource@, headers.hostname@),
{
    get_request(headers.resource.as_str(), headers.hostname.as_str())
}

/// The query sent upstream for a POST request, ahead of the body.
pub fn post_query(headers: &Header) -> (query: String)
    ensures
        query@ == post_text(headers.resource@, headers.hostname@, headers.content@, headers.length as nat),
{
    post_request(headers.resource.as_str(), headers.hostname.as_str(), headers.content.as_str(), headers.length)
}

/// The query sent upstream for a HEAD request.
pub fn head_query(headers: &Header) -> (query: String)
    ensures
        query@ == "xHEAD /"@ + headers.resource@ + " HTTP/1.1\r\nHost: "@ + headers.hostname@
            + "\r\n\r\n"@,
{
    let mut query = String::new();
    query.append("xHEAD /");
    query.append(headers.resource.as_str());
    query.append(" HTTP/1.1\r\nHost: ");
    query.append(headers.hostname.as_str());
    query.append("\r\n\r\n");
    proof {
        assert(query@ =~= "xHEAD /"@ + headers.resource@ + " HTTP/1.1\r\nHost: "@
            + headers.hostname@ + "\r\n\r\n"@);
    }
    query
}

/// The answer to an OPTIONS request.
pub fn options_response() -> (response: String)
    ensures
        response@ == allow_text("GET,POST,HEAD,OPTIONS"@),
{
    let allow = "GET,POST,HEAD,OPTIONS";
    allow_response(allow)
}

/// The port that upstream connections go to.
pub const UPSTREAM_PORT: u16 = 80;

/// The address that upstream connections go to: the host, a colon and the port.
pub fn upstream_address(headers: &Header) -> (a: String)
    ensures
        a@ == address_text(headers.hostname@, UPSTREAM_PORT as nat),
{
    address(headers.hostname.as_str(), UPSTREAM_PORT)
}

/// How the answer to a GET is relayed back: up to the content length when there is one,
/// else until the server has no more to send.
pub fn response_relay(headers: &Header) -> (r: Relay)
    ensures
        r.wf(),
        r.current() == 0,
        !r.writing(),
        !r.stopped(),
        r.limit() == if headers.length > 0 {
            Some(headers.length)
        } else {
            None
        },
{
    if headers.length > 0 {
        Relay::with_limit(headers.length)
    } else {
        Relay::unlimited()
    }
}

/// How the body of a POST is relayed upstream: up to the content length.
pub fn upload_relay(headers: &Header) -> (r: Relay)
    ensures
        r.wf(),
        r.current() == 0,
        !r.writing(),
        !r.stopped(),
        r.limit() == Some(headers.length),
{
    Relay::with_limit(headers.length)
}


/// A `Content-Length` line that carries `n` in decimal, as `post_query` writes it, gives `n`
/// back to `req_length`.
pub proof fn lemma_length_line_roundtrip(buf: Seq<u8>, n: usize)
    requires
        length_key().len() + decimal(n as nat).len() < buf.len(),
        buf.subrange(0, length_key().len() as int) == length_key(),
        latin1(
            buf.subrange(
                length_key().len() as int,
                (length_key().len() + decimal(n as nat).len()) as int,
            ),
        ) == decimal(n as nat),
        buf[(length_key().len() + decimal(n as nat).len()) as int] == 13,
    ensures
        substr_ok(buf, length_key(), 13),
        number_field_ok(buf, length_key(), 13),
        number_field(buf, length_key(), 13) == n,
{
    let d = decimal(n as nat);
    let kl = length_key().len() as int;
    let v = buf.subrange(kl, kl + d.len());
    lemma_keys_plain();
    lemma_decimal_digits(n as nat);
    assert forall|k: int| 0 <= k < v.len() implies #[trigger] v[k] != 13 && v[k] != 10 by {
        assert(latin1(v)[k] == v[k] as char);
        assert(is_digit(d[k]));
    }
    lemma_field_at_line_start(buf, length_key(), v, 13);
    lemma_decimal_parses(n);
}

} // verus!
