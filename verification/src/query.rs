use crate::text::{decimal, push_decimal};
use vstd::prelude::*;

verus! {

/// The query for a GET: the resource (the rest of the request line, line end included), the
/// host, and a request to close the connection.
pub open spec fn get_text(resource: Seq<char>, host: Seq<char>) -> Seq<char> {
    "GET "@ + resource + "Host: "@ + host + "\r\nConnection: close\r\n\r\n"@
}

/// The query for a POST, ahead of its body: the resource, the host, the content type and the
/// content length in decimal.
pub open spec fn post_text(resource: Seq<char>, host: Seq<char>, content: Seq<char>, length: nat) -> Seq<char> {
    "POST "@ + resource + "Host: "@ + host + "\r\nContent-Type: "@ + content
        + "\r\nContent-Length: "@ + decimal(length) + "\r\n\r\n"@
}

/// A host and a port as an address: `host:port`.
pub open spec fn address_text(host: Seq<char>, port: nat) -> Seq<char> {
    host + ":"@ + decimal(port)
}

/// The answer to OPTIONS, listing the allowed methods.
pub open spec fn allow_text(allow: Seq<char>) -> Seq<char> {
    "HTTP/1.1 200 OK\r\n"@ + "Allow: "@ + allow + "\r\n\r\n"@
}

/// Whatever the length, 0 included, the POST query ends with a `Content-Length` line that
/// carries the length in decimal, followed by the empty line.
pub proof fn lemma_post_ends_with_length(resource: Seq<char>, host: Seq<char>, content: Seq<char>, length: nat)
    ensures
        ({
            let q = post_text(resource, host, content, length);
            let tail = "\r\nContent-Length: "@ + decimal(length) + "\r\n\r\n"@;
            &&& tail.len() <= q.len()
            &&& q.subrange(q.len() - tail.len(), q.len() as int) == tail
        }),
{
    let q = post_text(resource, host, content, length);
    let head = "POST "@ + resource + "Host: "@ + host + "\r\nContent-Type: "@ + content;
    let tail = "\r\nContent-Length: "@ + decimal(length) + "\r\n\r\n"@;
    assert(q =~= head + tail);
    assert(q.subrange(q.len() - tail.len(), q.len() as int) =~= tail);
}

/// The GET query starts with `GET `, the resource and `Host: ` with the host, and ends with the
/// request to close the connection and the empty line.
pub proof fn lemma_get_shape(resource: Seq<char>, host: Seq<char>)
    ensures
        ({
            let q = get_text(resource, host);
            let head = "GET "@ + resource + "Host: "@ + host;
            let tail = "\r\nConnection: close\r\n\r\n"@;
            &&& q.len() == head.len() + tail.len()
            &&& q.subrange(0, head.len() as int) == head
            &&& q.subrange(head.len() as int, q.len() as int) == tail
        }),
{
    let q = get_text(resource, host);
    let head = "GET "@ + resource + "Host: "@ + host;
    let tail = "\r\nConnection: close\r\n\r\n"@;
    assert(q =~= head + tail);
    assert(q.subrange(0, head.len() as int) =~= head);
    assert(q.subrange(head.len() as int, q.len() as int) =~= tail);
}

/// The address is the host, a colon, then the port in decimal.
pub proof fn lemma_address_shape(host: Seq<char>, port: nat)
    ensures
        address_text(host, port).subrange(0, host.len() as int) == host,
        address_text(host, port)[host.len() as int] == ':',
        address_text(host, port).subrange((host.len() + 1) as int, address_text(host, port).len() as int)
            == decimal(port),
{
    reveal_strlit(":");
    let a = address_text(host, port);
    assert(a.subrange(0, host.len() as int) =~= host);
    assert(a.subrange((host.len() + 1) as int, a.len() as int) =~= decimal(port));
}

/// The answer to OPTIONS is the status line `HTTP/1.1 200 OK`, then the line `Allow: ` with
/// the allowed methods, then the empty line.
pub proof fn lemma_allow_shape(allow: Seq<char>)
    ensures
        ({
            let a = allow_text(allow);
            let head = "HTTP/1.1 200 OK\r\nAllow: "@;
            &&& a.len() == head.len() + allow.len() + 4
            &&& a.subrange(0, head.len() as int) == head
            &&& a.subrange(head.len() as int, (head.len() + allow.len()) as int) == allow
            &&& a.subrange((head.len() + allow.len()) as int, a.len() as int) == "\r\n\r\n"@
        }),
{
    reveal_strlit("HTTP/1.1 200 OK\r\nAllow: ");
    reveal_strlit("HTTP/1.1 200 OK\r\n");
    reveal_strlit("Allow: ");
    reveal_strlit("\r\n\r\n");
    let a = allow_text(allow);
    let head = "HTTP/1.1 200 OK\r\nAllow: "@;
    assert("HTTP/1.1 200 OK\r\n"@ + "Allow: "@ =~= head);
    assert(a =~= head + allow + "\r\n\r\n"@);
    assert(a.subrange(0, head.len() as int) =~= head);
    assert(a.subrange(head.len() as int, (head.len() + allow.len()) as int) =~= allow);
    assert(a.subrange((head.len() + allow.len()) as int, a.len() as int) =~= "\r\n\r\n"@);
}

/// Writes the query for a GET.
pub fn get_request(resource: &str, host: &str) -> (query: String)
    ensures
        query@ == get_text(resource@, host@),
{
    let mut query = String::new();
    query.append("GET ");
    query.append(resource);
    query.append("Host: ");
    query.append(host);
    query.append("\r\nConnection: close\r\n\r\n");
    proof {
        assert(query@ =~= get_text(resource@, host@));
    }
    query
}

/// Writes the query for a POST.
pub fn post_request(resource: &str, host: &str, content: &str, length: usize) -> (query: String)
    ensures
        query@ == post_text(resource@, host@, content@, length as nat),
{
    let mut query = String::new();
    query.append("POST ");
    query.append(resource);
    query.append("Host: ");
    query.append(host);
    query.append("\r\nContent-Type: ");
    query.append(content);
    query.append("\r\nContent-Length: ");
    push_decimal(&mut query, length);
    query.append("\r\n\r\n");
    proof {
        assert(query@ =~= post_text(resource@, host@, content@, length as nat));
    }
    query
}

/// Writes `host:port`.
pub fn address(host: &str, port: u16) -> (a: String)
    ensures
        a@ == address_text(host@, port as nat),
{
    let mut a = String::new();
    a.append(host);
    a.append(":");
    push_decimal(&mut a, port as usize);
    proof {
        assert(a@ =~= address_text(host@, port as nat));
    }
    a
}

/// Writes the answer to OPTIONS.
pub fn allow_response(allow: &str) -> (response: String)
    ensures
        response@ == allow_text(allow@),
{
    let code: String = String::from_str("HTTP/1.1 200 OK\r\n");
    let mut request: String = String::from_str("Allow: ");
    request.append(allow);
    request.append("\r\n\r\n");
    let mut response = code;
    response.append(request.as_str());
    proof {
        assert(response@ =~= allow_text(allow@));
    }
    response
}

} // verus!
