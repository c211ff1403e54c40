use crate::http::{host_key, lemma_keys_plain, length_key, type_key};
use crate::line::{LineReader, lemma_line_after_is_line};
use crate::query::{
    address,
    address_text,
    allow_response,
    allow_text,
    get_request,
    get_text,
    post_request,
    post_text,
};
use crate::relay::Relay;
use crate::text::{
    REQUEST_LEN,
    copy_until_nul,
    has_nul,
    is_line,
    lemma_line_has_nul,
    lemma_line_substr_ok,
    number_field,
    number_field_ok,
    parse_number_field,
    push_char,
    substr,
    substr_ok,
    substr_spec,
    text_before_nul,
};
use vstd::prelude::*;
use vstd::string::*;

verus! {

/// What the proxy has learnt of one request.
pub struct Header {
    pub hostname: String,
    pub resource: String,
    pub content_type: String,
    pub content_length: usize,
    pub method: String,
}

/// The line can be read for every field that `check` still has to fill.
pub open spec fn check_ok(buf: Seq<u8>, h: Header) -> bool {
    &&& h.hostname@.len() == 0 ==> substr_ok(buf, host_key(), 47)
    &&& h.resource@.len() == 0 ==> has_nul(buf)
    &&& h.content_type@.len() == 0 ==> substr_ok(buf, type_key(), 13)
    &&& h.content_length == 0 ==> substr_ok(buf, length_key(), 13) && number_field_ok(
        buf,
        length_key(),
        13,
    )
}

/// The header after `check` has read the line `buf`: each field that was still empty (a
/// length of 0) takes what the line gives for it; the others stay.
pub open spec fn checked(buf: Seq<u8>, h: Header, after: Header) -> bool {
    &&& after.hostname@ == if h.hostname@.len() == 0 {
        substr_spec(buf, host_key(), 47)
    } else {
        h.hostname@
    }
    &&& after.resource@ == if h.resource@.len() == 0 {
        text_before_nul(buf)
    } else {
        h.resource@
    }
    &&& after.content_type@ == if h.content_type@.len() == 0 {
        substr_spec(buf, type_key(), 13)
    } else {
        h.content_type@
    }
    &&& after.content_length == if h.content_length == 0 {
        number_field(buf, length_key(), 13)
    } else {
        h.content_length
    }
    &&& after.method == h.method
}

/// Whether the header is complete: host, resource and method all known.
pub open spec fn complete(h: Header) -> bool {
    h.hostname@.len() > 0 && h.resource@.len() > 0 && h.method@.len() > 0
}

impl Header {
    /// A header with every field empty and a length of 0.
    pub fn new() -> (h: Header)
        ensures
            h.hostname@ == Seq::<char>::empty(),
            h.resource@ == Seq::<char>::empty(),
            h.content_type@ == Seq::<char>::empty(),
            h.content_length == 0,
            h.method@ == Seq::<char>::empty(),
    {
        let hostname = String::new();
        let resource = String::new();
        let content_type = String::new();
        let content_length: usize = 0;
        let method = String::new();
        let h = Header {
            hostname: hostname,
            resource: resource,
            content_type: content_type,
            content_length: content_length,
            method: method,
        };
        return h;
    }

    /// Fills the fields still empty from the line, and says whether the header is complete.
    pub fn check(&mut self, buffer: [u8; REQUEST_LEN]) -> (r: bool)
        requires
            check_ok(buffer@, *old(self)),
        ensures
            checked(buffer@, *old(self), *final(self)),
            r == complete(*final(self)),
    {
        if self.hostname.as_str().is_empty() {
            self.hostname = self.hostname(buffer);
        }
        if self.resource.as_str().is_empty() {
            self.resource = self.resource(buffer);
        }
        if self.content_type.as_str().is_empty() {
            self.content_type = self.content_type(buffer);
        }
        if self.content_length == 0 {
            self.content_length = self.content_length(buffer);
        }
        if self.hostname.as_str().is_empty() || self.resource.as_str().is_empty()
            || self.method.as_str().is_empty() {
            return false;
        }
        return true;
    }

    /// The whole line before its first NUL byte.
    pub fn resource(&mut self, buf: [u8; REQUEST_LEN]) -> (request: String)
        requires
            has_nul(buf@),
        ensures
            *final(self) == *old(self),
            request@ == text_before_nul(buf@),
    {
        copy_until_nul(&buf)
    }

    /// The text behind `Content-Type: ` up to the carriage return.
    pub fn content_type(&mut self, buf: [u8; REQUEST_LEN]) -> (content: String)
        requires
            substr_ok(buf@, type_key(), 13),
        ensures
            *final(self) == *old(self),
            content@ == substr_spec(buf@, type_key(), 13),
    {
        let content = substr(buf, "Content-Type: ", 13);
        return content;
    }

    /// The text behind `http://` up to the next slash.
    pub fn hostname(&mut self, buf: [u8; REQUEST_LEN]) -> (hostname: String)
        requires
            substr_ok(buf@, host_key(), 47),
        ensures
            *final(self) == *old(self),
            hostname@ == substr_spec(buf@, host_key(), 47),
    {
        let hostname: String = substr(buf, "http://", 47);
        return hostname;
    }

    /// The number behind `Content-Length: `, trimmed; 0 when there is no such text.
    pub fn content_length(&mut self, buf: [u8; REQUEST_LEN]) -> (length: usize)
        requires
            substr_ok(buf@, length_key(), 13),
            number_field_ok(buf@, length_key(), 13),
        ensures
            *final(self) == *old(self),
            length == number_field(buf@, length_key(), 13),
    {
        match parse_number_field(&buf, "Content-Length: ".as_bytes(), 13) {
            Some(v) => v,
            None => 0,
        }
    }
}

/// Each field that is empty before a line takes what the line gives for it, whatever the
/// other fields hold.
pub proof fn lemma_empty_fields_take_the_line(buf: Seq<u8>, h: Header, after: Header)
    requires
        checked(buf, h, after),
    ensures
        h.hostname@.len() == 0 ==> after.hostname@ == substr_spec(buf, host_key(), 47),
        h.resource@.len() == 0 ==> after.resource@ == text_before_nul(buf),
        h.content_type@.len() == 0 ==> after.content_type@ == substr_spec(buf, type_key(), 13),
        h.content_length == 0 ==> after.content_length == number_field(buf, length_key(), 13),
        after.method == h.method,
{
}

/// A header is complete exactly when its host, resource and method are all non-empty; an
/// empty host, resource or method makes it incomplete.
pub proof fn lemma_complete_needs_host_resource_method(h: Header)
    ensures
        complete(h) <==> (h.hostname@.len() > 0 && h.resource@.len() > 0 && h.method@.len() > 0),
        h.hostname@.len() == 0 ==> !complete(h),
        h.resource@.len() == 0 ==> !complete(h),
        h.method@.len() == 0 ==> !complete(h),
{
}

/// A line that gives no host leaves a header without a host incomplete.
pub proof fn lemma_no_host_no_completion(buf: Seq<u8>, h: Header, after: Header)
    requires
        checked(buf, h, after),
        h.hostname@.len() == 0,
        substr_spec(buf, host_key(), 47).len() == 0,
    ensures
        !complete(after),
{
}

/// Once `check` has filled a field, later lines leave it as it is, so a complete header stays
/// complete.
pub proof fn lemma_filled_fields_stay(buf: Seq<u8>, h: Header, after: Header)
    requires
        checked(buf, h, after),
    ensures
        h.hostname@.len() > 0 ==> after.hostname@ == h.hostname@,
        h.resource@.len() > 0 ==> after.resource@ == h.resource@,
        h.content_type@.len() > 0 ==> after.content_type@ == h.content_type@,
        h.content_length != 0 ==> after.content_length == h.content_length,
        complete(h) ==> complete(after),
{
}

/// Over any run of `check` calls on one header, a field filled after one call keeps that
/// value after every later call, and once the header is complete it stays complete.
pub proof fn lemma_filled_fields_stay_over_runs(bufs: Seq<Seq<u8>>, hs: Seq<Header>, i: int, j: int)
    requires
        hs.len() == bufs.len() + 1,
        forall|k: int| 0 <= k < bufs.len() ==> checked(#[trigger] bufs[k], hs[k], hs[k + 1]),
        0 <= i <= j < hs.len(),
    ensures
        hs[i].hostname@.len() > 0 ==> hs[j].hostname@ == hs[i].hostname@,
        hs[i].resource@.len() > 0 ==> hs[j].resource@ == hs[i].resource@,
        hs[i].content_type@.len() > 0 ==> hs[j].content_type@ == hs[i].content_type@,
        hs[i].content_length != 0 ==> hs[j].content_length == hs[i].content_length,
        complete(hs[i]) ==> complete(hs[j]),
    decreases j - i,
{
    if i < j {
        assert(checked(bufs[i], hs[i], hs[i + 1]));
        lemma_filled_fields_stay(bufs[i], hs[i], hs[i + 1]);
        lemma_filled_fields_stay_over_runs(bufs, hs, i + 1, j);
    }
}

/// On a completed line `check` can read every field but the length, which must be a number
/// when it is still to be filled.
pub proof fn lemma_line_check_ok(buf: Seq<u8>, len: int, h: Header)
    requires
        is_line(buf, len),
        h.content_length == 0 ==> number_field_ok(buf, length_key(), 13),
    ensures
        check_ok(buf, h),
{
    lemma_keys_plain();
    lemma_line_substr_ok(buf, len, host_key(), 47);
    lemma_line_substr_ok(buf, len, type_key(), 13);
    lemma_line_substr_ok(buf, len, length_key(), 13);
    lemma_line_has_nul(buf, len);
}

/// The methods that the proxy goes on to read the lines of.
pub open spec fn known_method(method: Seq<char>) -> bool {
    ||| method == "GET"@
    ||| method == "POST"@
    ||| method == "OPTIONS"@
    ||| method == "HEAD"@
    ||| method == "CONNECT"@
}

/// The known methods are exactly `GET`, `POST`, `OPTIONS`, `HEAD` and `CONNECT`, each of them
/// known, and nothing else (other case, other spelling) is.
pub proof fn lemma_known_methods(m: Seq<char>)
    ensures
        known_method("GET"@),
        known_method("POST"@),
        known_method("OPTIONS"@),
        known_method("HEAD"@),
        known_method("CONNECT"@),
        (m != "GET"@ && m != "POST"@ && m != "OPTIONS"@ && m != "HEAD"@ && m != "CONNECT"@)
            ==> !known_method(m),
{
}

/// `GET`, `POST`, `HEAD`, `OPTIONS` and `CONNECT` each go to their own route, and a method
/// that is none of them is unknown.
pub proof fn lemma_routes(m: Seq<char>)
    ensures
        route_of("GET"@) == Route::Get,
        route_of("POST"@) == Route::Post,
        route_of("HEAD"@) == Route::Head,
        route_of("OPTIONS"@) == Route::Options,
        route_of("CONNECT"@) == Route::Connect,
        (m != "GET"@ && m != "POST"@ && m != "HEAD"@ && m != "OPTIONS"@ && m != "CONNECT"@)
            ==> route_of(m) == Route::Unknown,
{
    reveal_strlit("GET");
    reveal_strlit("POST");
    reveal_strlit("HEAD");
    reveal_strlit("OPTIONS");
    reveal_strlit("CONNECT");
    assert("GET"@[0] == 'G' && "POST"@[0] == 'P' && "HEAD"@[0] == 'H' && "OPTIONS"@[0] == 'O'
        && "CONNECT"@[0] == 'C');
}

/// Whether the proxy goes on to read the lines of a request with this method.
pub fn is_known_method(method: &String) -> (r: bool)
    ensures
        r == known_method(method@),
{
    *method == String::from_str("GET") || *method == String::from_str("POST") || *method
        == String::from_str("OPTIONS") || *method == String::from_str("HEAD") || *method
        == String::from_str("CONNECT")
}


enum Stage {
    Method,
    Lines,
    Done,
}

/// Reads a request into a `Header`, one byte at a time: the method up to the first space, then,
/// for a known method, lines until a complete header is followed by an empty line.
pub struct HeaderReader {
    stage: Stage,
    byte: u8,
    line: LineReader,
}

impl HeaderReader {
    /// The line reader is sound.
    pub closed spec fn wf(&self) -> bool {
        self.line.wf()
    }

    /// Still reading the method.
    pub closed spec fn reading_method(&self) -> bool {
        self.stage is Method
    }

    /// Reading header lines.
    pub closed spec fn reading_lines(&self) -> bool {
        self.stage is Lines
    }

    /// The request has been read as far as it will be.
    pub closed spec fn done(&self) -> bool {
        self.stage is Done
    }

    /// A reader is in exactly one stage: reading the method, reading lines, or done.
    pub proof fn lemma_one_stage(&self)
        ensures
            self.reading_method() || self.reading_lines() || self.done(),
            !(self.reading_method() && self.reading_lines()),
            !(self.reading_method() && self.done()),
            !(self.reading_lines() && self.done()),
    {
    }

    /// The byte that the last read left in the one-byte buffer of the method reads.
    pub closed spec fn byte(&self) -> u8 {
        self.byte
    }

    /// The line being read.
    pub closed spec fn line(&self) -> LineReader {
        self.line
    }

    /// Taking a read of `n` bytes that delivered `b` stays inside the line buffer and, when it
    /// ends a line while the length is still 0, finds a number (or nothing) for the length.
    pub open spec fn can_feed(&self, h: Header, n: usize, b: u8) -> bool {
        &&& n <= 1
        &&& !self.done()
        &&& self.reading_lines() ==> {
            &&& self.line().can_feed(n, b)
            &&& (self.line().next_byte(n, b) == 10 && h.content_length == 0) ==> number_field_ok(
                self.line().line_after(n, b),
                length_key(),
                13,
            )
        }
    }

    /// A reader before the first byte of a request.
    pub fn new() -> (r: Self)
        ensures
            r.wf(),
            r.reading_method(),
            !r.reading_lines(),
            !r.done(),
            r.byte() == 0,
    {
        HeaderReader { stage: Stage::Method, byte: 0, line: LineReader::new() }
    }

    /// Whether the request has been read as far as it will be.
    pub fn is_done(&self) -> (r: bool)
        ensures
            r == self.done(),
    {
        match self.stage {
            Stage::Done => true,
            _ => false,
        }
    }

    /// Whether `feed(headers, n, b)` may be called.
    pub fn fits(&self, headers: &Header, n: usize, b: u8) -> (r: bool)
        requires
            self.wf(),
        ensures
            r == self.can_feed(*headers, n, b),
    {
        if n > 1 {
            return false;
        }
        match self.stage {
            Stage::Method => true,
            Stage::Done => false,
            Stage::Lines => {
                if !self.line.fits(n, b) {
                    return false;
                }
                let next = if n == 1 {
                    b
                } else {
                    self.line.last_byte()
                };
                if next != 10 || headers.content_length != 0 {
                    return true;
                }
                let buf = self.line.peek_line(n, b);
                proof {
                    lemma_line_after_is_line(self.line, n, b);
                    lemma_keys_plain();
                    lemma_line_substr_ok(
                        buf@,
                        (self.line.pending().len() + 1) as int,
                        length_key(),
                        13,
                    );
                }
                parse_number_field(&buf, "Content-Length: ".as_bytes(), 13).is_some()
            },
        }
    }

    /// Takes one read of `n` bytes that delivered `b`, into the method or into the line; a
    /// finished line goes through `Header::check`.
    pub fn feed(&mut self, headers: &mut Header, n: usize, b: u8)
        requires
            old(self).wf(),
            old(self).can_feed(*old(headers), n, b),
        ensures
            final(self).wf(),
            old(self).reading_method() ==> {
                let byte = if n == 1 {
                    b
                } else {
                    old(self).byte()
                };
                let method = if byte != 32 {
                    old(headers).method@.push(byte as char)
                } else {
                    old(headers).method@
                };
                &&& final(headers).method@ == method
                &&& final(headers).hostname == old(headers).hostname
                &&& final(headers).resource == old(headers).resource
                &&& final(headers).content_type == old(headers).content_type
                &&& final(headers).content_length == old(headers).content_length
                &&& final(self).byte() == byte
                &&& if byte == 32 {
                    if known_method(method) {
                        &&& final(self).reading_lines()
                        &&& !final(self).reading_method()
                        &&& !final(self).done()
                        &&& final(self).line().at_line_start()
                        &&& final(self).line().pending() == Seq::<u8>::empty()
                        &&& final(self).line().last() == 0
                    } else {
                        &&& final(self).done()
                        &&& !final(self).reading_method()
                        &&& !final(self).reading_lines()
                    }
                } else {
                    &&& final(self).reading_method()
                    &&& !final(self).reading_lines()
                    &&& !final(self).done()
                }
            },
            old(self).reading_lines() ==> {
                let l = old(self).line();
                if l.next_byte(n, b) == 10 {
                    &&& checked(l.line_after(n, b), *old(headers), *final(headers))
                    &&& final(self).line().at_line_start()
                    &&& final(self).line().pending() == Seq::<u8>::empty()
                    &&& final(self).line().last() == 0
                    &&& !final(self).reading_method()
                    &&& final(self).done() <==> (complete(*final(headers)) && l.pending().len() + 1
                        == 2)
                    &&& !final(self).done() <==> final(self).reading_lines()
                } else {
                    &&& *final(headers) == *old(headers)
                    &&& final(self).reading_lines()
                    &&& !final(self).reading_method()
                    &&& !final(self).done()
                    &&& final(self).line().pending() == if n == 1 {
                        l.pending().push(b)
                    } else {
                        l.pending()
                    }
                    &&& final(self).line().last() == l.next_byte(n, b)
                }
            },
    {
        match self.stage {
            Stage::Method => {
                if n == 1 {
                    self.byte = b;
                }
                if self.byte != 32 {
                    push_char(&mut headers.method, self.byte as char);
                } else {
                    if is_known_method(&headers.method) {
                        self.stage = Stage::Lines;
                        self.line = LineReader::new();
                    } else {
                        self.stage = Stage::Done;
                    }
                }
            },
            Stage::Lines => {
                let ghost l = self.line;
                proof {
                    if l.next_byte(n, b) == 10 {
                        lemma_line_after_is_line(l, n, b);
                    }
                }
                match self.line.feed(n, b) {
                    Some(len) => {
                        let buf = *self.line.buffer();
                        proof {
                            lemma_line_check_ok(buf@, len as int, *headers);
                        }
                        if headers.check(buf) && len == 2 {
                            self.stage = Stage::Done;
                        }
                    },
                    None => {},
                }
            },
            Stage::Done => {},
        }
    }
}

/// One request: its header.
pub struct Request {
    pub headers: Header,
}

/// Where a request goes, by its method.
#[derive(Clone, Copy, Debug, PartialEq, Eq, Structural)]
pub enum Route {
    Get,
    Post,
    Head,
    Options,
    Connect,
    Unknown,
}

/// The route of a method: `GET`, `POST`, `HEAD`, `OPTIONS` and `CONNECT` have one, every
/// other method is unknown.
pub open spec fn route_of(method: Seq<char>) -> Route {
    if method == "GET"@ {
        Route::Get
    } else if method == "POST"@ {
        Route::Post
    } else if method == "HEAD"@ {
        Route::Head
    } else if method == "OPTIONS"@ {
        Route::Options
    } else if method == "CONNECT"@ {
        Route::Connect
    } else {
        Route::Unknown
    }
}

/// The methods that the answer to OPTIONS allows.
pub open spec fn allowed_methods() -> Seq<char> {
    "GET,POST,HEAD,CONNECT,OPTIONS"@
}

/// The port of upstream web servers.
pub const HTTP_PORT: u16 = 80;

/// The port that CONNECT requests go to.
pub const TLS_PORT: u16 = 443;

impl Request {
    /// A request with an empty header.
    pub fn new() -> (r: Request)
        ensures
            r.headers.hostname@ == Seq::<char>::empty(),
            r.headers.resource@ == Seq::<char>::empty(),
            r.headers.content_type@ == Seq::<char>::empty(),
            r.headers.content_length == 0,
            r.headers.method@ == Seq::<char>::empty(),
    {
        let headers = Header::new();
        let r = Request { headers: headers };
        r
    }

    /// Chooses the route for the method of the request.
    pub fn route(&self) -> (r: Route)
        ensures
            r == route_of(self.headers.method@),
    {
        let method = &self.headers.method;
        if *method == String::from_str("GET") {
            Route::Get
        } else if *method == String::from_str("POST") {
            Route::Post
        } else if *method == String::from_str("HEAD") {
            Route::Head
        } else if *method == String::from_str("OPTIONS") {
            Route::Options
        } else if *method == String::from_str("CONNECT") {
            Route::Connect
        } else {
            Route::Unknown
        }
    }

    /// The answer to an OPTIONS request.
    pub fn options_response(&self) -> (response: String)
        ensures
            response@ == allow_text(allowed_methods()),
    {
        let allow = "GET,POST,HEAD,CONNECT,OPTIONS";
        allow_response(allow)
    }

    /// The query sent upstream for a HEAD request.
    pub fn head_query(&self) -> (query: String)
        ensures
            query@ == "HEAD /"@ + self.headers.resource@ + " HTTP/1.1\r\nHost: "@
                + self.headers.hostname@ + "\r\n\r\n"@,
    {
        let mut query = String::new();
        query.append("HEAD /");
        query.append(self.headers.resource.as_str());
        query.append(" HTTP/1.1\r\nHost: ");
        query.append(self.headers.hostname.as_str());
        query.append("\r\n\r\n");
        proof {
            assert(query@ =~= "HEAD /"@ + self.headers.resource@ + " HTTP/1.1\r\nHost: "@
                + self.headers.hostname@ + "\r\n\r\n"@);
        }
        query
    }

    /// The query sent upstream for a POST request, ahead of the body.
    pub fn post_query(&self) -> (query: String)
        ensures
            query@ == post_text(
                self.headers.resource@,
                self.headers.hostname@,
                self.headers.content_type@,
                self.headers.content_length as nat,
            ),
    {
        post_request(
            self.headers.resource.as_str(),
            self.headers.hostname.as_str(),
            self.headers.content_type.as_str(),
            self.headers.content_length,
        )
    }

    /// The query sent upstream for a GET request.
    pub fn get_query(&self) -> (query: String)
        ensures
            query@ == get_text(self.headers.resource@, self.headers.hostname@),
    {
        get_request(self.headers.resource.as_str(), self.headers.hostname.as_str())
    }

    /// The upstream address of GET, POST and HEAD requests.
    pub fn upstream_address(&self) -> (a: String)
        ensures
            a@ == address_text(self.headers.hostname@, HTTP_PORT as nat),
    {
        address(self.headers.hostname.as_str(), HTTP_PORT)
    }

    /// The upstream address of CONNECT requests.
    pub fn connect_address(&self) -> (a: String)
        ensures
            a@ == address_text(self.headers.hostname@, TLS_PORT as nat),
    {
        address(self.headers.hostname.as_str(), TLS_PORT)
    }

    /// How the answer to a GET is relayed back: up to the content length when there is one,
    /// else until the server has no more to send.
    pub fn response_relay(&self) -> (r: Relay)
        ensures
            r.wf(),
            r.current() == 0,
            !r.writing(),
            !r.stopped(),
            r.limit() == if self.headers.content_length > 0 {
                Some(self.headers.content_length)
            } else {
                None
            },
    {
        if self.headers.content_length > 0 {
            Relay::with_limit(self.headers.content_length)
        } else {
            Relay::unlimited()
        }
    }

    /// How the body of a POST is relayed upstream: up to the content length.
    pub fn upload_relay(&self) -> (r: Relay)
        ensures
            r.wf(),
            r.current() == 0,
            !r.writing(),
            !r.stopped(),
            r.limit() == Some(self.headers.content_length),
    {
        Relay::with_limit(self.headers.content_length)
    }
}

} // verus!
