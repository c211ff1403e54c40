use crate::line::LineReader;
use crate::relay::{CHUNK, Step};
use crate::text::{
    REQUEST_LEN,
    has_nul,
    is_line,
    lemma_line_has_nul,
    lemma_line_substr_ok,
    plain_needle,
    push_char,
    substr,
    substr_ok,
    substr_spec,
};
use vstd::prelude::*;
use vstd::string::*;
use vstd::utf8::*;

verus! {

/// The field name of the host line.
pub open spec fn host_key() -> Seq<u8> {
    "Host: ".spec_bytes()
}

/// The field name of the connection line.
pub open spec fn connection_key() -> Seq<u8> {
    "Connection: ".spec_bytes()
}

/// The field name of the proxy connection line.
pub open spec fn proxy_key() -> Seq<u8> {
    "Proxy-Connection: ".spec_bytes()
}

/// The field name of the user agent line.
pub open spec fn agent_key() -> Seq<u8> {
    "User-Agent: ".spec_bytes()
}

/// The field names of a CONNECT request are plain.
pub proof fn lemma_keys_plain()
    ensures
        plain_needle(host_key()),
        plain_needle(connection_key()),
        plain_needle(proxy_key()),
        plain_needle(agent_key()),
{
    reveal_strlit("Host: ");
    reveal_strlit("Connection: ");
    reveal_strlit("Proxy-Connection: ");
    reveal_strlit("User-Agent: ");
    is_ascii_chars_encode_utf8("Host: "@);
    is_ascii_chars_encode_utf8("Connection: "@);
    is_ascii_chars_encode_utf8("Proxy-Connection: "@);
    is_ascii_chars_encode_utf8("User-Agent: "@);
}

/// What a CONNECT request says of itself.
pub struct Header {
    pub hostname: String,
    pub connection: String,
    pub proxy: String,
    pub agent: String,
}

impl Header {
    /// A header with every field empty.
    pub fn new() -> (h: Header)
        ensures
            h.hostname@ == Seq::<char>::empty(),
            h.connection@ == Seq::<char>::empty(),
            h.proxy@ == Seq::<char>::empty(),
            h.agent@ == Seq::<char>::empty(),
    {
        let hostname = String::new();
        let connection = String::new();
        let proxy = String::new();
        let agent = String::new();
        let h = Header { hostname: hostname, connection: connection, proxy: proxy, agent: agent };
        return h;
    }
}

/// The line holds a NUL byte, and it can be read for every field still empty.
pub open spec fn check_headers_ok(buf: Seq<u8>, h: Header) -> bool {
    &&& has_nul(buf)
    &&& h.hostname@.len() == 0 ==> substr_ok(buf, host_key(), 13)
    &&& h.connection@.len() == 0 ==> substr_ok(buf, connection_key(), 13)
    &&& h.proxy@.len() == 0 ==> substr_ok(buf, proxy_key(), 13)
    &&& h.agent@.len() == 0 ==> substr_ok(buf, agent_key(), 13)
}

/// The field `old` after reading the line: what follows `key` up to the carriage return when
/// it was empty, else unchanged.
pub open spec fn filled(buf: Seq<u8>, key: Seq<u8>, old: Seq<char>) -> Seq<char> {
    if old.len() == 0 {
        substr_spec(buf, key, 13)
    } else {
        old
    }
}

/// Whether all four fields are known.
pub open spec fn header_complete(h: Header) -> bool {
    &&& h.hostname@.len() > 0
    &&& h.connection@.len() > 0
    &&& h.proxy@.len() > 0
    &&& h.agent@.len() > 0
}

/// The field names are the bytes `Host: `, `Connection: `, `Proxy-Connection: ` and
/// `User-Agent: `.
pub proof fn lemma_key_bytes()
    ensures
        host_key() == seq![72u8, 111u8, 115u8, 116u8, 58u8, 32u8],
        connection_key() == seq![67u8, 111u8, 110u8, 110u8, 101u8, 99u8, 116u8, 105u8, 111u8, 110u8, 58u8, 32u8],
        proxy_key() == seq![80u8, 114u8, 111u8, 120u8, 121u8, 45u8, 67u8, 111u8, 110u8, 110u8, 101u8, 99u8, 116u8, 105u8, 111u8, 110u8, 58u8, 32u8],
        agent_key() == seq![85u8, 115u8, 101u8, 114u8, 45u8, 65u8, 103u8, 101u8, 110u8, 116u8, 58u8, 32u8],
{
    reveal_strlit("Host: ");
    reveal_strlit("Connection: ");
    reveal_strlit("Proxy-Connection: ");
    reveal_strlit("User-Agent: ");
    is_ascii_chars_encode_utf8("Host: "@);
    is_ascii_chars_encode_utf8("Connection: "@);
    is_ascii_chars_encode_utf8("Proxy-Connection: "@);
    is_ascii_chars_encode_utf8("User-Agent: "@);
    assert(host_key() =~= seq![72u8, 111u8, 115u8, 116u8, 58u8, 32u8]);
    assert(connection_key() =~= seq![67u8, 111u8, 110u8, 110u8, 101u8, 99u8, 116u8, 105u8, 111u8, 110u8, 58u8, 32u8]);
    assert(proxy_key() =~= seq![80u8, 114u8, 111u8, 120u8, 121u8, 45u8, 67u8, 111u8, 110u8, 110u8, 101u8, 99u8, 116u8, 105u8, 111u8, 110u8, 58u8, 32u8]);
    assert(agent_key() =~= seq![85u8, 115u8, 101u8, 114u8, 45u8, 65u8, 103u8, 101u8, 110u8, 116u8, 58u8, 32u8]);
}

/// A field empty before a line takes what follows its name up to `\r`; a known field keeps
/// its value.
pub proof fn lemma_filled(buf: Seq<u8>, key: Seq<u8>, old: Seq<char>)
    ensures
        old.len() == 0 ==> filled(buf, key, old) == substr_spec(buf, key, 13),
        old.len() > 0 ==> filled(buf, key, old) == old,
{
}

/// The header is complete exactly when all four fields are non-empty; any empty field, the
/// user agent among them, makes it incomplete.
pub proof fn lemma_complete_needs_all_four(h: Header)
    ensures
        header_complete(h) <==> (h.hostname@.len() > 0 && h.connection@.len() > 0
            && h.proxy@.len() > 0 && h.agent@.len() > 0),
        h.hostname@.len() == 0 ==> !header_complete(h),
        h.connection@.len() == 0 ==> !header_complete(h),
        h.proxy@.len() == 0 ==> !header_complete(h),
        h.agent@.len() == 0 ==> !header_complete(h),
{
}

/// Fills the fields still empty from the line, and says whether all four are known.
pub fn check_headers(buffer: [u8; REQUEST_LEN], headers: &mut Header) -> (r: bool)
    requires
        check_headers_ok(buffer@, *old(headers)),
    ensures
        final(headers).hostname@ == filled(buffer@, host_key(), old(headers).hostname@),
        final(headers).connection@ == filled(buffer@, connection_key(), old(headers).connection@),
        final(headers).proxy@ == filled(buffer@, proxy_key(), old(headers).proxy@),
        final(headers).agent@ == filled(buffer@, agent_key(), old(headers).agent@),
        r == header_complete(*final(headers)),
{
    if headers.hostname.as_str().is_empty() {
        headers.hostname = substr(buffer, "Host: ", 13);
    }
    if headers.connection.as_str().is_empty() {
        headers.connection = substr(buffer, "Connection: ", 13);
    }
    if headers.proxy.as_str().is_empty() {
        headers.proxy = substr(buffer, "Proxy-Connection: ", 13);
    }
    if headers.agent.as_str().is_empty() {
        headers.agent = substr(buffer, "User-Agent: ", 13);
    }
    if !headers.hostname.as_str().is_empty() && !headers.connection.as_str().is_empty()
        && !headers.proxy.as_str().is_empty() && !headers.agent.as_str().is_empty() {
        return true;
    }
    return false;
}

/// A field that is known stays as it is when another line is read, so a complete header stays
/// complete.
pub proof fn lemma_filled_fields_stay(buf: Seq<u8>, h: Header, after: Header)
    requires
        after.hostname@ == filled(buf, host_key(), h.hostname@),
        after.connection@ == filled(buf, connection_key(), h.connection@),
        after.proxy@ == filled(buf, proxy_key(), h.proxy@),
        after.agent@ == filled(buf, agent_key(), h.agent@),
    ensures
        h.hostname@.len() > 0 ==> after.hostname@ == h.hostname@,
        h.connection@.len() > 0 ==> after.connection@ == h.connection@,
        h.proxy@.len() > 0 ==> after.proxy@ == h.proxy@,
        h.agent@.len() > 0 ==> after.agent@ == h.agent@,
        header_complete(h) ==> header_complete(after),
{
}

/// The header after `check_headers` has read the line `buf`.
pub open spec fn checked_header(buf: Seq<u8>, h: Header, after: Header) -> bool {
    &&& after.hostname@ == filled(buf, host_key(), h.hostname@)
    &&& after.connection@ == filled(buf, connection_key(), h.connection@)
    &&& after.proxy@ == filled(buf, proxy_key(), h.proxy@)
    &&& after.agent@ == filled(buf, agent_key(), h.agent@)
}

/// Over any run of `check_headers` calls on one header, a field filled after one call keeps
/// that value after every later call, and once all four are known they stay known.
pub proof fn lemma_filled_fields_stay_over_runs(bufs: Seq<Seq<u8>>, hs: Seq<Header>, i: int, j: int)
    requires
        hs.len() == bufs.len() + 1,
        forall|k: int| 0 <= k < bufs.len() ==> checked_header(#[trigger] bufs[k], hs[k], hs[k + 1]),
        0 <= i <= j < hs.len(),
    ensures
        hs[i].hostname@.len() > 0 ==> hs[j].hostname@ == hs[i].hostname@,
        hs[i].connection@.len() > 0 ==> hs[j].connection@ == hs[i].connection@,
        hs[i].proxy@.len() > 0 ==> hs[j].proxy@ == hs[i].proxy@,
        hs[i].agent@.len() > 0 ==> hs[j].agent@ == hs[i].agent@,
        header_complete(hs[i]) ==> header_complete(hs[j]),
    decreases j - i,
{
    if i < j {
        assert(checked_header(bufs[i], hs[i], hs[i + 1]));
        lemma_filled_fields_stay(bufs[i], hs[i], hs[i + 1]);
        lemma_filled_fields_stay_over_runs(bufs, hs, i + 1, j);
    }
}

/// On a completed line `check_headers` can read every field.
pub proof fn lemma_line_check_ok(buf: Seq<u8>, len: int, h: Header)
    requires
        is_line(buf, len),
    ensures
        check_headers_ok(buf, h),
{
    lemma_keys_plain();
    lemma_line_substr_ok(buf, len, host_key(), 13);
    lemma_line_substr_ok(buf, len, connection_key(), 13);
    lemma_line_substr_ok(buf, len, proxy_key(), 13);
    lemma_line_substr_ok(buf, len, agent_key(), 13);
    lemma_line_has_nul(buf, len);
}


/// Reads the method of a request one byte at a time, up to the first space.
pub struct MethodReader {
    byte: u8,
    method: String,
    done: bool,
}

impl MethodReader {
    /// The method read so far.
    pub closed spec fn method(&self) -> Seq<char> {
        self.method@
    }

    /// The byte that the last read left in the one-byte read buffer.
    pub closed spec fn byte(&self) -> u8 {
        self.byte
    }

    /// A space has been read.
    pub closed spec fn done(&self) -> bool {
        self.done
    }

    /// A reader before the first byte.
    pub fn new() -> (r: Self)
        ensures
            r.method() == Seq::<char>::empty(),
            r.byte() == 0,
            !r.done(),
    {
        MethodReader { byte: 0, method: String::new(), done: false }
    }

    /// Whether a space has been read.
    pub fn is_done(&self) -> (r: bool)
        ensures
            r == self.done(),
    {
        self.done
    }

    /// Takes one read of `n` bytes that delivered `b`: a byte other than a space joins the
    /// method, a space ends it.
    pub fn feed(&mut self, n: usize, b: u8)
        requires
            !old(self).done(),
            n <= 1,
        ensures
            ({
                let byte = if n == 1 {
                    b
                } else {
                    old(self).byte()
                };
                &&& final(self).byte() == byte
                &&& final(self).method() == if byte != 32 {
                    old(self).method().push(byte as char)
                } else {
                    old(self).method()
                }
                &&& final(self).done() == (byte == 32)
            }),
    {
        if n == 1 {
            self.byte = b;
        }
        if self.byte != 32 {
            push_char(&mut self.method, self.byte as char);
        }
        if self.byte == 32 {
            self.done = true;
        }
    }

    /// The method when it is `CONNECT`, the only one served; empty for any other.
    pub fn finish(self) -> (method: String)
        ensures
            method@ == if self.method() == "CONNECT"@ {
                self.method()
            } else {
                Seq::<char>::empty()
            },
    {
        if self.method == String::from_str("CONNECT") {
            self.method
        } else {
            String::new()
        }
    }
}

/// Reads the header lines of a CONNECT request, one byte at a time, until all four fields are
/// known and an empty line follows.
pub struct HeaderReader {
    line: LineReader,
    done: bool,
}

impl HeaderReader {
    /// The line reader is sound.
    pub closed spec fn wf(&self) -> bool {
        self.line.wf()
    }

    /// The line being read.
    pub closed spec fn line(&self) -> LineReader {
        self.line
    }

    /// The header lines are over.
    pub closed spec fn done(&self) -> bool {
        self.done
    }

    /// A reader before the first header line.
    pub fn new() -> (r: Self)
        ensures
            r.wf(),
            !r.done(),
            r.line().at_line_start(),
            r.line().pending() == Seq::<u8>::empty(),
            r.line().last() == 0,
    {
        HeaderReader { line: LineReader::new(), done: false }
    }

    /// Whether the header lines are over.
    pub fn is_done(&self) -> (r: bool)
        ensures
            r == self.done(),
    {
        self.done
    }

    /// Whether `feed(headers, n, b)` stays inside the line buffer.
    pub fn fits(&self, n: usize, b: u8) -> (r: bool)
        requires
            self.wf(),
        ensures
            r == self.line().can_feed(n, b),
    {
        self.line.fits(n, b)
    }

    /// The buffer, holding the last finished line until the next read.
    pub fn buffer(&self) -> (r: &[u8; REQUEST_LEN])
        ensures
            r@ == self.line().contents(),
    {
        self.line.buffer()
    }

    /// Takes one read of `n` bytes that delivered `b`; a finished line goes through
    /// `check_headers`. Returns whether this read finished a line.
    pub fn feed(&mut self, headers: &mut Header, n: usize, b: u8) -> (finished: bool)
        requires
            old(self).wf(),
            !old(self).done(),
            old(self).line().can_feed(n, b),
        ensures
            final(self).wf(),
            ({
                let l = old(self).line();
                if l.next_byte(n, b) == 10 {
                    let buf = l.line_after(n, b);
                    &&& finished
                    &&& final(self).line().contents() == buf
                    &&& final(self).line().at_line_start()
                    &&& final(self).line().pending() == Seq::<u8>::empty()
                    &&& final(self).line().last() == 0
                    &&& final(headers).hostname@ == filled(buf, host_key(), old(headers).hostname@)
                    &&& final(headers).connection@ == filled(
                        buf,
                        connection_key(),
                        old(headers).connection@,
                    )
                    &&& final(headers).proxy@ == filled(buf, proxy_key(), old(headers).proxy@)
                    &&& final(headers).agent@ == filled(buf, agent_key(), old(headers).agent@)
                    &&& final(self).done() == (header_complete(*final(headers)) && l.pending().len()
                        + 1 == 2)
                } else {
                    &&& !finished
                    &&& *final(headers) == *old(headers)
                    &&& !final(self).done()
                    &&& final(self).line().pending() == if n == 1 {
                        l.pending().push(b)
                    } else {
                        l.pending()
                    }
                    &&& final(self).line().last() == l.next_byte(n, b)
                }
            }),
    {
        let ghost l = self.line;
        proof {
            if l.next_byte(n, b) == 10 {
                crate::line::lemma_line_after_is_line(l, n, b);
            }
        }
        match self.line.feed(n, b) {
            Some(len) => {
                let buf = *self.line.buffer();
                proof {
                    lemma_line_check_ok(buf@, len as int, *headers);
                }
                if check_headers(buf, headers) && len == 2 {
                    self.done = true;
                }
                true
            },
            None => false,
        }
    }
}

/// The answer that tells the client its tunnel is open, echoing the four fields.
pub fn connect_response(headers: &Header) -> (response: String)
    ensures
        response@ == "HTTP/1.1 200 Connection established\r\nUser-Agent: "@ + headers.agent@
            + "\r\nProxy-Connection: "@ + headers.proxy@ + "\r\nConnection: "@
            + headers.connection@ + "\r\nHost: "@ + headers.hostname@ + "\r\n\r\n"@,
{
    let mut response = String::from_str("HTTP/1.1 200 Connection established\r\nUser-Agent: ");
    response.append(headers.agent.as_str());
    response.append("\r\nProxy-Connection: ");
    response.append(headers.proxy.as_str());
    response.append("\r\nConnection: ");
    response.append(headers.connection.as_str());
    response.append("\r\nHost: ");
    response.append(headers.hostname.as_str());
    response.append("\r\n\r\n");
    proof {
        assert(response@ =~= "HTTP/1.1 200 Connection established\r\nUser-Agent: "@
            + headers.agent@ + "\r\nProxy-Connection: "@ + headers.proxy@ + "\r\nConnection: "@
            + headers.connection@ + "\r\nHost: "@ + headers.hostname@ + "\r\n\r\n"@);
    }
    response
}

/// Passes data from the server to the client in rounds. A round reads once and writes the
/// whole read, each write from the start of the buffer; it fails when the read or a write
/// takes nothing. The tunnel ends with the first round that does not fail.
pub struct Tunnel {
    bytes: usize,
    chunk: usize,
    writing: bool,
    finished: bool,
}

impl Tunnel {
    /// The last read fits the buffer, and a write is pending only while the read is not all
    /// written.
    pub closed spec fn wf(&self) -> bool {
        &&& self.bytes <= CHUNK
        &&& self.writing ==> self.chunk < self.bytes
        &&& !(self.writing && self.finished)
    }

    /// Bytes of the last read.
    pub closed spec fn bytes(&self) -> usize {
        self.bytes
    }

    /// Bytes written so far for the last read.
    pub closed spec fn chunk(&self) -> usize {
        self.chunk
    }

    /// Writing out the last read.
    pub closed spec fn writing(&self) -> bool {
        self.writing
    }

    /// A round has gone through.
    pub closed spec fn finished(&self) -> bool {
        self.finished
    }

    /// The step that `next` returns.
    pub open spec fn next_step(&self) -> Step {
        if self.finished() {
            Step::Stop
        } else if self.writing() {
            Step::Write(self.bytes())
        } else {
            Step::Read
        }
    }

    /// A tunnel before its first round.
    pub fn new() -> (t: Self)
        ensures
            t.wf(),
            !t.writing(),
            !t.finished(),
    {
        Tunnel { bytes: 0, chunk: 0, writing: false, finished: false }
    }

    /// What to do next.
    pub fn next(&self) -> (s: Step)
        requires
            self.wf(),
        ensures
            s == self.next_step(),
    {
        if self.finished {
            Step::Stop
        } else if self.writing {
            Step::Write(self.bytes)
        } else {
            Step::Read
        }
    }

    /// A read asked for by `next` gave `n` bytes; a read of nothing fails the round.
    pub fn read_done(&mut self, n: usize)
        requires
            old(self).wf(),
            old(self).next_step() is Read,
            n <= CHUNK,
        ensures
            final(self).wf(),
            !final(self).finished(),
            n == 0 ==> !final(self).writing(),
            n > 0 ==> final(self).writing() && final(self).bytes() == n && final(self).chunk()
                == 0,
    {
        if n > 0 {
            self.bytes = n;
            self.chunk = 0;
            self.writing = true;
        }
    }

    /// A write asked for by `next` took `sent` bytes; a write of nothing fails the round, and
    /// the round goes through once the whole read is written.
    pub fn write_done(&mut self, sent: usize)
        requires
            old(self).wf(),
            old(self).next_step() is Write,
            sent <= old(self).bytes(),
        ensures
            final(self).wf(),
            final(self).bytes() == old(self).bytes(),
            sent == 0 ==> !final(self).writing() && !final(self).finished(),
            sent > 0 ==> {
                let chunk = old(self).chunk() + sent;
                &&& final(self).chunk() == chunk
                &&& final(self).writing() == (chunk < old(self).bytes())
                &&& final(self).finished() == (chunk >= old(self).bytes())
            },
    {
        if sent == 0 {
            self.writing = false;
        } else {
            self.chunk = self.chunk + sent;
            if self.chunk >= self.bytes {
                self.writing = false;
                self.finished = true;
            }
        }
    }
}

/// What a tunnel asks for: nothing after a round has gone through, the rest of the last read
/// while it is not all written, and otherwise a read.
pub proof fn lemma_tunnel_steps(t: Tunnel)
    ensures
        t.finished() ==> t.next_step() == Step::Stop,
        !t.finished() && t.writing() ==> t.next_step() == Step::Write(t.bytes()),
        !t.finished() && !t.writing() ==> t.next_step() == Step::Read,
{
}

} // verus!
