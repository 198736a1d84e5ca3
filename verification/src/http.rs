//! Minimal HTTP/1.0 for loopback endpoints: no TLS, no redirects, bounded body.
use crate::json;
use crate::json::Json;
use crate::text;
use vstd::prelude::*;

verus! {

/// The authority and the path of an address.
#[derive(Debug)]
pub struct Address {
    pub authority: String,
    pub path: String,
}

/// An address as characters: what follows `http://` up to the first slash, and
/// the rest; the path is `/` where there is none.
pub open spec fn address_in(url: Seq<char>) -> Option<(Seq<char>, Seq<char>)> {
    if text::begins(url, "http://"@) {
        let rest = url.skip("http://"@.len() as int);
        let i = text::first_at(rest, '/') as int;
        if i < rest.len() {
            Some((rest.take(i), rest.skip(i)))
        } else {
            Some((rest, "/"@))
        }
    } else {
        None
    }
}

/// Splits an address.
pub fn split_url(url: &str) -> (r: Option<Address>)
    ensures
        r matches Some(a) ==> address_in(url@) == Some((a.authority@, a.path@)),
        r is None ==> address_in(url@) is None,
{
    let rest = match text::strip_prefix(url, "http://") {
        Some(rest) => rest,
        None => return None,
    };
    proof {
        text::lemma_first_at(rest@, '/');
    }
    match text::split_once(rest.as_str(), '/') {
        Some((authority, tail)) => {
            let path = text::cat2("/", tail.as_str());
            proof {
                reveal_strlit("/");
                assert(path@ =~= rest@.skip(text::first_at(rest@, '/') as int));
            }
            Some(Address { authority, path })
        },
        None => Some(Address { authority: rest, path: text::copy("/") }),
    }
}

/// The request for a document.
pub open spec fn get_text(authority: Seq<char>, path: Seq<char>) -> Seq<char> {
    "GET "@ + path + " HTTP/1.0\r\nHost: "@ + authority
        + "\r\nAccept: */*\r\nConnection: close\r\n\r\n"@
}

pub fn get_request(address: &Address) -> (r: String)
    ensures
        r@ == get_text(address.authority@, address.path@),
{
    text::cat5(
        "GET ",
        address.path.as_str(),
        " HTTP/1.0\r\nHost: ",
        address.authority.as_str(),
        "\r\nAccept: */*\r\nConnection: close\r\n\r\n",
    )
}

/// The request that sends a JSON document; its length is counted in bytes.
pub open spec fn post_text(authority: Seq<char>, path: Seq<char>, body: Seq<char>) -> Seq<char> {
    "POST "@ + path + " HTTP/1.0\r\nHost: "@ + authority
        + "\r\nContent-Type: application/json\r\nContent-Length: "@ + text::decimal(
        vstd::utf8::encode_utf8(body).len(),
    ) + "\r\nConnection: close\r\n\r\n"@ + body
}

pub fn post_request(address: &Address, body: &str) -> (r: String)
    ensures
        r@ == post_text(address.authority@, address.path@, body@),
{
    let bytes = text::bytes_of(body);
    let length = text::from_u64(bytes.len() as u64);
    let mut out = text::cat5(
        "POST ",
        address.path.as_str(),
        " HTTP/1.0\r\nHost: ",
        address.authority.as_str(),
        "\r\nContent-Type: application/json\r\nContent-Length: ",
    );
    out.append(length.as_str());
    out.append("\r\nConnection: close\r\n\r\n");
    out.append(body);
    out
}

/// The length that the last header of that name gives; what is no number
/// counts as zero.
pub open spec fn content_length(headers: Seq<Seq<char>>) -> int
    decreases headers.len(),
{
    if headers.len() == 0 {
        0
    } else {
        let line = text::ascii_lower(headers.last());
        if text::begins(line, "content-length:"@) {
            match text::unsigned_literal(
                text::trimmed(line.skip("content-length:"@.len() as int)),
                10,
                usize::MAX as int,
            ) {
                Some(n) => n,
                None => 0,
            }
        } else {
            content_length(headers.drop_last())
        }
    }
}

/// How much of a body is read: nothing unless the answer is 200, else the
/// announced length or, where none is announced, as much as is allowed.
pub open spec fn body_size(status: Seq<char>, headers: Seq<Seq<char>>, limit: int) -> Option<int> {
    if !text::occurs(status, " 200"@) {
        None
    } else {
        let length = content_length(headers);
        if 0 < length < limit {
            Some(length)
        } else {
            Some(limit)
        }
    }
}

fn announced(headers: &Vec<String>) -> (r: usize)
    ensures
        r == content_length(text::views(headers@)),
{
    let ghost all = text::views(headers@);
    let mut i: usize = headers.len();
    assert(all.take(all.len() as int) =~= all);
    while i > 0
        invariant
            i <= headers@.len(),
            all == text::views(headers@),
            content_length(all) == content_length(all.take(i as int)),
        decreases i,
    {
        assert(all.take(i as int).last() == headers@[i - 1]@);
        assert(all.take(i as int).drop_last() =~= all.take(i - 1));
        let line = text::to_ascii_lower(headers[i - 1].as_str());
        if let Some(value) = text::strip_prefix(line.as_str(), "content-length:") {
            let value = text::trim(value.as_str());
            return match text::parse_usize(value.as_str()) {
                Some(n) => n,
                None => 0,
            };
        }
        i -= 1;
    }
    0
}

/// How many bytes of the body to read after the status line and the header
/// lines; nothing where the answer is not a success.
pub fn body_length(status: &str, headers: &Vec<String>, limit: usize) -> (r: Option<usize>)
    ensures
        r matches Some(n) ==> body_size(status@, text::views(headers@), limit as int) == Some(
            n as int,
        ),
        r is None ==> body_size(status@, text::views(headers@), limit as int) is None,
{
    if !text::contains(status, " 200") {
        return None;
    }
    let length: usize = announced(headers);
    if 0 < length && length < limit {
        Some(length)
    } else {
        Some(limit)
    }
}

/// Whether a header line ends the headers.
pub fn ends_headers(line: &str) -> (r: bool)
    ensures
        r == (text::trimmed(line@).len() == 0),
{
    let trimmed = text::trim(line);
    text::is_empty(trimmed.as_str())
}

/// The text of a body.
pub fn body_text(body: &Vec<u8>) -> (r: String)
    ensures
        r@ == text::lossy(body@),
{
    text::from_bytes(body)
}

/// The document in a body that is read as text.
pub fn body_document(body: &Vec<u8>) -> (r: Option<Json>)
    ensures
        json::doc_if(r) == json::json_text(text::lossy(body@)),
{
    let content = text::from_bytes(body);
    match json::parse(content.as_str()) {
        Ok(value) => Some(value),
        Err(_) => None,
    }
}

/// The document in the answer to a POST.
pub fn reply_document(body: &Vec<u8>) -> (r: Option<Json>)
    ensures
        json::doc_if(r) == json::json_bytes(body@),
{
    json::parse_bytes(body)
}

/// The port that an address names.
pub open spec fn port_in(url: Seq<char>) -> Option<int> {
    if text::begins(url, "http://"@) {
        let rest = url.skip("http://"@.len() as int);
        let authority = rest.take(text::first_at(rest, '/') as int);
        let port = match text::cut_last(authority, ':') {
            Some((_, p)) => p,
            None => authority,
        };
        text::unsigned_literal(port, 10, u16::MAX as int)
    } else {
        None
    }
}

/// The port of an address.
pub fn port_of_url(url: &str) -> (r: Option<u16>)
    ensures
        r matches Some(p) ==> port_in(url@) == Some(p as int),
        r is None ==> port_in(url@) is None,
{
    let rest = match text::strip_prefix(url, "http://") {
        Some(rest) => rest,
        None => return None,
    };
    proof {
        text::lemma_first_at(rest@, '/');
    }
    let authority = match text::split_once(rest.as_str(), '/') {
        Some((head, _)) => head,
        None => rest,
    };
    assert(authority@ =~= rest@.take(text::first_at(rest@, '/') as int));
    match text::rsplit_once(authority.as_str(), ':') {
        Some((_, port)) => text::parse_u16(port.as_str()),
        None => text::parse_u16(authority.as_str()),
    }
}

/// An address is the authority behind `http://` and the path from its first
/// slash on; without a path it is `/`, and other schemes are none.
pub proof fn addresses_are_split(authority: Seq<char>, path: Seq<char>, url: Seq<char>)
    requires
        !authority.contains('/'),
        path.len() > 0 ==> path[0] == '/',
        !text::begins(url, "http://"@),
    ensures
        path.len() > 0 ==> address_in("http://"@ + authority + path) == Some((authority, path)),
        address_in("http://"@ + authority) == Some((authority, "/"@)),
        address_in(url) is None,
        port_in(url) is None,
{
    reveal_strlit("http://");
    lemma_authority(authority, path);
    lemma_authority(authority, Seq::empty());
    assert("http://"@ + authority + Seq::<char>::empty() =~= "http://"@ + authority);
    assert(authority + Seq::<char>::empty() =~= authority);
}

proof fn lemma_authority(authority: Seq<char>, path: Seq<char>)
    requires
        !authority.contains('/'),
        path.len() > 0 ==> path[0] == '/',
    ensures
        ({
            let url = "http://"@ + authority + path;
            let rest = authority + path;
            &&& text::begins(url, "http://"@)
            &&& url.skip("http://"@.len() as int) == rest
            &&& text::first_at(rest, '/') == authority.len()
            &&& rest.take(authority.len() as int) == authority
            &&& rest.skip(authority.len() as int) == path
        }),
{
    reveal_strlit("http://");
    let url = "http://"@ + authority + path;
    let rest = authority + path;
    assert(url.take(7) =~= "http://"@);
    assert(url.skip(7) =~= rest);
    text::lemma_first_at(rest, '/');
    assert forall|i: int| 0 <= i < authority.len() implies rest[i] != '/' by {
        assert(authority.contains(authority[i]));
    }
    if path.len() > 0 {
        assert(rest[authority.len() as int] == '/');
    }
    assert(rest.take(authority.len() as int) =~= authority);
    assert(rest.skip(authority.len() as int) =~= path);
}

/// The port of an address is the number behind the last colon of its authority.
pub proof fn ports_stand_behind_the_colon(host: Seq<char>, port: u16, path: Seq<char>)
    requires
        !host.contains('/'),
        path.len() > 0 ==> path[0] == '/',
    ensures
        port_in("http://"@ + (host.push(':') + text::decimal(port as nat)) + path) == Some(
            port as int,
        ),
{
    let digits = text::decimal(port as nat);
    let authority = host.push(':') + digits;
    text::digits_denote_their_number(port as nat, 10);
    text::decimals_are_read_back(port as nat, u16::MAX as int);
    assert forall|i: int| 0 <= i < digits.len() implies digits[i] != ':' && digits[i] != '/' by {
        assert(text::is_digit(digits[i]));
    }
    assert(!authority.contains('/')) by {
        if authority.contains('/') {
            let i = choose|i: int| 0 <= i < authority.len() && authority[i] == '/';
            if i < host.len() {
                assert(host.contains(host[i]));
            } else if i > host.len() {
                assert(authority[i] == digits[i - host.len() - 1]);
            }
        }
    }
    lemma_authority(authority, path);
    text::cuts_at_the_last_mark(host, digits, ':');
}

/// A request names the method, the path and the host, and asks for the end of
/// the connection; a posted document comes with its length in bytes.
pub proof fn requests_name_path_and_host(authority: Seq<char>, path: Seq<char>, body: Seq<char>)
    ensures
        text::begins(get_text(authority, path), "GET "@ + path + " HTTP/1.0\r\nHost: "@ + authority + "\r\n"@),
        text::ends(get_text(authority, path), "\r\nConnection: close\r\n\r\n"@),
        text::begins(
            post_text(authority, path, body),
            "POST "@ + path + " HTTP/1.0\r\nHost: "@ + authority
                + "\r\nContent-Type: application/json\r\nContent-Length: "@ + text::decimal(
                vstd::utf8::encode_utf8(body).len(),
            ) + "\r\n"@,
        ),
        text::ends(post_text(authority, path, body), "\r\nConnection: close\r\n\r\n"@ + body),
{
    reveal_strlit("\r\n");
    reveal_strlit("\r\nAccept: */*\r\nConnection: close\r\n\r\n");
    reveal_strlit("\r\nConnection: close\r\n\r\n");
    let get = get_text(authority, path);
    let head = "GET "@ + path + " HTTP/1.0\r\nHost: "@ + authority;
    assert(get.take((head + "\r\n"@).len() as int) =~= head + "\r\n"@);
    let tail = "\r\nConnection: close\r\n\r\n"@;
    assert(get.skip(get.len() - tail.len()) =~= tail);
    let post = post_text(authority, path, body);
    let front = "POST "@ + path + " HTTP/1.0\r\nHost: "@ + authority
        + "\r\nContent-Type: application/json\r\nContent-Length: "@ + text::decimal(
        vstd::utf8::encode_utf8(body).len(),
    );
    assert(post.take((front + "\r\n"@).len() as int) =~= front + "\r\n"@);
    assert(post.skip(post.len() - (tail + body).len()) =~= tail + body);
}

/// A body is read only where the answer is 200: as much as the last length
/// header announces, within the limit, or up to the limit.
pub proof fn bodies_are_bounded(status: Seq<char>, headers: Seq<Seq<char>>, limit: int)
    requires
        limit > 0,
    ensures
        body_size(status, headers, limit) is Some <==> text::occurs(status, " 200"@),
        body_size(status, headers, limit) matches Some(n) ==> {
            &&& 0 < n <= limit
            &&& 0 < content_length(headers) <= limit ==> n == content_length(headers)
            &&& content_length(headers) == 0 || content_length(headers) > limit ==> n == limit
        },
{
}

/// The length is the number behind the name of the header, in any case; other
/// headers do not matter, and the last one counts.
pub proof fn lengths_stand_in_the_header(headers: Seq<Seq<char>>, header: Seq<char>, other: Seq<char>, value: Seq<char>, n: int)
    requires
        text::ascii_lower(header) == "content-length:"@ + value,
        text::unsigned_literal(text::trimmed(value), 10, usize::MAX as int) == Some(n),
        !text::begins(text::ascii_lower(other), "content-length:"@),
    ensures
        content_length(headers.push(header)) == n,
        content_length(headers.push(other)) == content_length(headers),
        content_length(Seq::empty()) == 0,
{
    reveal_strlit("content-length:");
    let line = text::ascii_lower(header);
    assert(line.take(15) =~= "content-length:"@);
    assert(line.skip(15) =~= value);
    assert(headers.push(other).drop_last() =~= headers);
}

} // verus!
