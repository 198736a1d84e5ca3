//! The WebSocket side of the node agent: the handshake, the frames and what
//! each received frame leads to.
use crate::digest;
use crate::text;
use vstd::prelude::*;

verus! {

// ---------------------------------------------------------------- frames

/// Largest payload that is accepted.
pub const PAYLOAD_LIMIT: usize = 1_048_576;

/// The length field of a frame that is not masked.
pub open spec fn length_field(n: nat) -> Seq<u8> {
    if n < 126 {
        seq![n as u8]
    } else if n < 65536 {
        seq![126u8] + digest::be_bytes(n, 2)
    } else {
        seq![127u8] + digest::be_bytes(n, 8)
    }
}

/// A final text frame.
pub open spec fn text_frame(payload: Seq<u8>) -> Seq<u8> {
    seq![0x81u8] + length_field(payload.len()) + payload
}

fn append(out: &mut Vec<u8>, bytes: &Vec<u8>)
    ensures
        final(out)@ == old(out)@ + bytes@,
{
    let mut i: usize = 0;
    while i < bytes.len()
        invariant
            i <= bytes@.len(),
            out@ == old(out)@ + bytes@.take(i as int),
        decreases bytes@.len() - i,
    {
        out.push(bytes[i]);
        assert(out@ =~= old(out)@ + bytes@.take(i + 1));
        i += 1;
    }
    assert(out@ =~= old(out)@ + bytes@);
}

/// Wraps a payload into a final text frame.
pub fn encode_text_frame(payload: &Vec<u8>) -> (r: Vec<u8>)
    ensures
        r@ == text_frame(payload@),
{
    let n: usize = payload.len();
    let mut out: Vec<u8> = Vec::new();
    out.push(0x81);
    if n < 126 {
        out.push(n as u8);
    } else if n < 65536 {
        out.push(126);
        digest::push_u16(&mut out, n as u16);
    } else {
        out.push(127);
        digest::push_u64(&mut out, n as u64);
    }
    assert(out@ =~= seq![0x81u8] + length_field(n as nat));
    append(&mut out, payload);
    out
}

/// What the bytes received so far amount to.
#[derive(Debug)]
pub enum Received {
    /// The frame, or its head, is not complete: this many bytes are needed.
    More(usize),
    /// The payload is larger than what is accepted.
    TooLong,
    Frame { opcode: u8, payload: Vec<u8>, used: usize },
}

/// A received frame as bytes.
#[verifier::ext_equal]
pub enum Parsed {
    More(nat),
    TooLong,
    Frame { opcode: u8, payload: Seq<u8>, used: nat },
}

impl View for Received {
    type V = Parsed;

    open spec fn view(&self) -> Parsed {
        match self {
            Received::More(n) => Parsed::More(*n as nat),
            Received::TooLong => Parsed::TooLong,
            Received::Frame { opcode, payload, used } => Parsed::Frame {
                opcode: *opcode,
                payload: payload@,
                used: *used as nat,
            },
        }
    }
}

/// Bytes of the extended length for a seven-bit length.
pub open spec fn extension(seven: nat) -> nat {
    if seven == 126 {
        2
    } else if seven == 127 {
        8
    } else {
        0
    }
}

/// The payload length that the head of a frame gives.
pub open spec fn length_in(bytes: Seq<u8>) -> nat {
    let seven = (bytes[1] % 128) as nat;
    if extension(seven) == 0 {
        seven
    } else {
        digest::be_value(bytes.subrange(2, 2 + extension(seven) as int))
    }
}

/// The payload with the mask taken off.
pub open spec fn unmasked(payload: Seq<u8>, mask: Seq<u8>) -> Seq<u8> {
    Seq::new(payload.len(), |i: int| payload[i] ^ mask[i % 4])
}

/// Reads the first frame of a byte stream: two bytes of head, the extended
/// length, the mask where one is set, and the payload.
pub open spec fn parsed(bytes: Seq<u8>) -> Parsed {
    if bytes.len() < 2 {
        Parsed::More(2)
    } else {
        let seven = (bytes[1] % 128) as nat;
        let masked = bytes[1] >= 128;
        let head = 2 + extension(seven);
        if bytes.len() < head {
            Parsed::More(head)
        } else {
            let length = length_in(bytes);
            if length > PAYLOAD_LIMIT {
                Parsed::TooLong
            } else {
                let start = head + if masked {
                    4nat
                } else {
                    0nat
                };
                let total = start + length;
                if bytes.len() < total {
                    Parsed::More(total)
                } else {
                    let payload = bytes.subrange(start as int, total as int);
                    Parsed::Frame {
                        opcode: (bytes[0] % 16) as u8,
                        payload: if masked {
                            unmasked(payload, bytes.subrange(head as int, head as int + 4))
                        } else {
                            payload
                        },
                        used: total,
                    }
                }
            }
        }
    }
}

proof fn lemma_be_value_bound(bytes: Seq<u8>)
    ensures
        digest::be_value(bytes) < digest::span(bytes.len()),
    decreases bytes.len(),
{
    if bytes.len() > 0 {
        lemma_be_value_bound(bytes.drop_last());
    }
}

fn value_in(bytes: &Vec<u8>, from: usize, count: usize) -> (r: u64)
    requires
        count <= 8,
        from + count <= bytes@.len(),
    ensures
        r == digest::be_value(bytes@.subrange(from as int, from + count)),
{
    let n: usize = bytes.len();
    let mut value: u64 = 0;
    let mut i: usize = 0;
    assert(bytes@.subrange(from as int, from as int) =~= Seq::<u8>::empty());
    while i < count
        invariant
            i <= count <= 8,
            from + count <= n == bytes@.len(),
            value == digest::be_value(bytes@.subrange(from as int, from + i)),
        decreases count - i,
    {
        proof {
            let now = bytes@.subrange(from as int, from + i + 1);
            assert(now.drop_last() =~= bytes@.subrange(from as int, from + i));
            assert(now.last() == bytes@[from + i]);
            lemma_be_value_bound(now);
            reveal_with_fuel(digest::span, 9);
            assert(digest::span(now.len()) <= 0x1_0000_0000_0000_0000);
        }
        value = value * 256 + bytes[from + i] as u64;
        i += 1;
    }
    value
}

/// Reads the first frame of the bytes received so far.
pub fn read_client_frame(bytes: &Vec<u8>) -> (r: Received)
    ensures
        r@ == parsed(bytes@),
{
    let n: usize = bytes.len();
    if n < 2 {
        return Received::More(2);
    }
    let seven: u8 = bytes[1] % 128;
    let masked = bytes[1] >= 128;
    let ext: usize = if seven == 126 {
        2
    } else if seven == 127 {
        8
    } else {
        0
    };
    let head: usize = 2 + ext;
    if n < head {
        return Received::More(head);
    }
    let length: u64 = if ext == 0 {
        seven as u64
    } else {
        value_in(bytes, 2, ext)
    };
    assert(length == length_in(bytes@));
    if length > 1_048_576 {
        return Received::TooLong;
    }
    let start: usize = if masked {
        head + 4
    } else {
        head
    };
    let total: usize = start + length as usize;
    if n < total {
        return Received::More(total);
    }
    let mut payload: Vec<u8> = Vec::new();
    let ghost raw = bytes@.subrange(start as int, total as int);
    let ghost mask = bytes@.subrange(head as int, head + 4);
    let ghost full = if masked {
        unmasked(raw, mask)
    } else {
        raw
    };
    let mut i: usize = start;
    while i < total
        invariant
            start <= i <= total <= n == bytes@.len(),
            start == if masked {
                head + 4
            } else {
                head as int
            },
            raw == bytes@.subrange(start as int, total as int),
            mask == bytes@.subrange(head as int, head + 4),
            full == if masked {
                unmasked(raw, mask)
            } else {
                raw
            },
            payload@ == full.take(i - start),
        decreases total - i,
    {
        if masked {
            payload.push(bytes[i] ^ bytes[head + (i - start) % 4]);
        } else {
            payload.push(bytes[i]);
        }
        assert(payload@ =~= full.take(i + 1 - start));
        i += 1;
    }
    assert(payload@ =~= full);
    Received::Frame { opcode: bytes[0] % 16, payload, used: total }
}

/// A frame that the agent writes is read back as it was: a text frame with the
/// same payload, and nothing left over.
pub proof fn frames_come_back(payload: Seq<u8>, rest: Seq<u8>)
    requires
        payload.len() <= PAYLOAD_LIMIT,
    ensures
        parsed(text_frame(payload) + rest) == (Parsed::Frame {
            opcode: 1,
            payload,
            used: text_frame(payload).len(),
        }),
{
    let n = payload.len();
    let bytes = text_frame(payload) + rest;
    reveal_with_fuel(digest::span, 9);
    if n < 126 {
        assert(bytes[1] == n as u8);
        assert(bytes.subrange(2, 2 + n as int) =~= payload);
    } else if n < 65536 {
        digest::lemma_be_bytes(n, 2);
        assert(bytes[1] == 126u8);
        assert(bytes.subrange(2, 4) =~= digest::be_bytes(n, 2));
        assert(bytes.subrange(4, 4 + n as int) =~= payload);
    } else {
        digest::lemma_be_bytes(n, 8);
        assert(bytes[1] == 127u8);
        assert(bytes.subrange(2, 10) =~= digest::be_bytes(n, 8));
        assert(bytes.subrange(10, 10 + n as int) =~= payload);
    }
}

/// A frame as a client sends it, masked.
pub open spec fn client_frame(opcode: u8, mask: Seq<u8>, payload: Seq<u8>) -> Seq<u8> {
    let field = length_field(payload.len());
    seq![(0x80 + opcode) as u8, (0x80 + field[0]) as u8] + field.drop_first() + mask + unmasked(
        payload,
        mask,
    )
}

/// Masking twice gives the payload back: what a client sends is what is read.
pub proof fn masks_come_off(opcode: u8, mask: Seq<u8>, payload: Seq<u8>)
    requires
        opcode < 16,
        mask.len() == 4,
        payload.len() <= PAYLOAD_LIMIT,
    ensures
        parsed(client_frame(opcode, mask, payload)) == (Parsed::Frame {
            opcode,
            payload,
            used: client_frame(opcode, mask, payload).len(),
        }),
{
    let bytes = client_frame(opcode, mask, payload);
    let field = length_field(payload.len());
    let n = payload.len() as int;
    let hidden = unmasked(payload, mask);
    reveal_with_fuel(digest::span, 9);
    if n >= 65536 {
        digest::lemma_be_bytes(n as nat, 8);
        assert(bytes.subrange(2, 10) =~= digest::be_bytes(n as nat, 8));
    } else if n >= 126 {
        digest::lemma_be_bytes(n as nat, 2);
        assert(bytes.subrange(2, 4) =~= digest::be_bytes(n as nat, 2));
    }
    let head = 1 + field.len() as int;
    assert(bytes.subrange(head, head + 4) =~= mask);
    assert(bytes.subrange(head + 4, head + 4 + n) =~= hidden);
    assert forall|i: int| 0 <= i < n implies (#[trigger] unmasked(hidden, mask)[i]) == payload[i] by {
        let p = payload[i];
        let m = mask[i % 4];
        assert((p ^ m) ^ m == p) by (bit_vector);
    }
    assert(unmasked(hidden, mask) =~= payload);
}

/// A frame that is not complete stays incomplete until all the bytes that are
/// asked for have come.
pub proof fn frames_wait_for_their_bytes(bytes: Seq<u8>)
    ensures
        parsed(bytes) matches Parsed::More(n) ==> n > bytes.len(),
{
}

// ---------------------------------------------------------------- dispatch

/// What a received frame leads to.
#[derive(Debug)]
pub enum Reaction {
    /// The client closed the connection.
    Close,
    /// Send these bytes.
    Pong(Vec<u8>),
    /// Answer the command in the payload.
    Command,
    Ignore,
}

/// A reaction as bytes.
pub enum Answer {
    Close,
    Pong(Seq<u8>),
    Command,
    Ignore,
}

impl View for Reaction {
    type V = Answer;

    open spec fn view(&self) -> Answer {
        match self {
            Reaction::Close => Answer::Close,
            Reaction::Pong(frame) => Answer::Pong(frame@),
            Reaction::Command => Answer::Command,
            Reaction::Ignore => Answer::Ignore,
        }
    }
}

/// A pong that carries the payload of the ping; the length field holds the low
/// byte of the length.
pub open spec fn pong(payload: Seq<u8>) -> Seq<u8> {
    seq![0x8au8, (payload.len() as usize) as u8] + payload
}

/// A close ends the connection, a ping is answered with its payload, a text is
/// a command, anything else is ignored.
pub open spec fn reaction_to(opcode: u8, payload: Seq<u8>) -> Answer {
    if opcode == 0x8 {
        Answer::Close
    } else if opcode == 0x9 {
        Answer::Pong(pong(payload))
    } else if opcode == 0x1 {
        Answer::Command
    } else {
        Answer::Ignore
    }
}

/// Decides what a received frame leads to.
pub fn react(opcode: u8, payload: &Vec<u8>) -> (r: Reaction)
    ensures
        r@ == reaction_to(opcode, payload@),
{
    if opcode == 0x8 {
        Reaction::Close
    } else if opcode == 0x9 {
        let mut frame: Vec<u8> = Vec::new();
        frame.push(0x8a);
        frame.push(payload.len() as u8);
        assert(frame@ =~= seq![0x8au8, (payload@.len() as usize) as u8]);
        append(&mut frame, payload);
        Reaction::Pong(frame)
    } else if opcode == 0x1 {
        Reaction::Command
    } else {
        Reaction::Ignore
    }
}

// ---------------------------------------------------------------- handshake

/// What a server appends to the key of a client.
pub const WS_GUID: &'static str = "258EAFA5-E914-47DA-95CA-C5AB0DC85B11";

/// The proof that the server has read the key.
pub open spec fn accept_of(key: Seq<char>) -> Seq<char> {
    digest::base64_of(digest::sha1_of(vstd::utf8::encode_utf8(key + WS_GUID@)))
}

proof fn lemma_utf8_len(s: Seq<char>)
    ensures
        vstd::utf8::encode_utf8(s).len() <= 4 * s.len(),
    decreases s.len(),
{
    if s.len() > 0 {
        lemma_utf8_len(s.drop_first());
    }
}

/// The proof that the server has read the key: base64 of the SHA-1 digest of
/// the key and the fixed identifier. The key must be short enough for its
/// digest to be taken.
pub fn websocket_accept(key: &str) -> (r: String)
    requires
        32 * (key@.len() + 64) <= usize::MAX,
    ensures
        r@ == accept_of(key@),
{
    let input = text::cat2(key, WS_GUID);
    let bytes = text::bytes_of(input.as_str());
    proof {
        reveal_strlit("258EAFA5-E914-47DA-95CA-C5AB0DC85B11");
        lemma_utf8_len(input@);
    }
    let hash = digest::sha1(&bytes);
    digest::base64(&hash)
}

/// The key in a request: what follows the colon in the last line that names it,
/// in upper or lower case; empty where no line does.
pub open spec fn key_in(lines: Seq<Seq<char>>) -> Seq<char>
    decreases lines.len(),
{
    if lines.len() == 0 {
        Seq::empty()
    } else if text::begins(text::ascii_lower(lines.last()), "sec-websocket-key:"@) {
        match text::cut_first(lines.last(), ':') {
            Some((_, value)) => text::trimmed(value),
            None => Seq::empty(),
        }
    } else {
        key_in(lines.drop_last())
    }
}

/// The first line, empty where there is none.
pub open spec fn first_line(s: Seq<char>) -> Seq<char> {
    if text::line_list(s).len() > 0 {
        text::line_list(s)[0]
    } else {
        Seq::empty()
    }
}

/// The token that a request brings: behind the header, one character after its
/// colon, or behind `token=` in the address.
pub open spec fn token_in(request: Seq<char>) -> Seq<char> {
    match text::find_at(text::ascii_lower(request), "x-sysmon-token:"@, 0) {
        Some(i) => text::trimmed(first_line(request.skip(i + 16))),
        None => match text::find_at(request, "token="@, 0) {
            Some(i) => text::head_before(request.skip(i + 6), '&', ' '),
            None => Seq::empty(),
        },
    }
}

/// Whether the token header, where there is one, is followed by a character of
/// one byte.
pub open spec fn token_readable(request: Seq<char>) -> bool {
    match text::find_at(text::ascii_lower(request), "x-sysmon-token:"@, 0) {
        Some(i) => i + 15 < request.len() && (request[i + 15] as u32) < 128,
        None => true,
    }
}

/// Whether a request has an answer: the token has to be readable where it is
/// looked at.
pub open spec fn answerable(request: Seq<char>, token: Seq<char>) -> bool {
    token.len() == 0 || key_in(text::line_list(request)).len() == 0 || token_readable(request)
}

/// The answer to a handshake request.
#[derive(Debug)]
pub enum Handshake {
    Refused(String),
    Accepted(String),
}

/// The answer as characters.
pub enum Greeting {
    Refused(Seq<char>),
    Accepted(Seq<char>),
}

impl View for Handshake {
    type V = Greeting;

    open spec fn view(&self) -> Greeting {
        match self {
            Handshake::Refused(s) => Greeting::Refused(s@),
            Handshake::Accepted(s) => Greeting::Accepted(s@),
        }
    }
}

pub const BAD_REQUEST: &'static str = "HTTP/1.1 400 Bad Request\r\nContent-Length: 0\r\n\r\n";

pub const UNAUTHORIZED: &'static str = "HTTP/1.1 401 Unauthorized\r\nContent-Length: 0\r\n\r\n";

pub const SWITCHING: &'static str =
    "HTTP/1.1 101 Switching Protocols\r\nUpgrade: websocket\r\nConnection: Upgrade\r\nSec-WebSocket-Accept: ";

/// A request without a key is bad; where a token is set, a request without it
/// is not authorized; any other request is accepted.
pub open spec fn greeting(request: Seq<char>, token: Seq<char>) -> Greeting {
    let key = key_in(text::line_list(request));
    if key.len() == 0 {
        Greeting::Refused(BAD_REQUEST@)
    } else if token.len() > 0 && token_in(request) != token {
        Greeting::Refused(UNAUTHORIZED@)
    } else {
        Greeting::Accepted(SWITCHING@ + accept_of(key) + "\r\n\r\n"@)
    }
}

proof fn lemma_trimmed_len(s: Seq<char>)
    ensures
        text::trimmed(s).len() <= s.len(),
{
    lemma_start_len(s);
    lemma_end_len(text::trimmed_start(s));
}

proof fn lemma_start_len(s: Seq<char>)
    ensures
        text::trimmed_start(s).len() <= s.len(),
    decreases s.len(),
{
    if s.len() > 0 {
        lemma_start_len(s.drop_first());
    }
}

proof fn lemma_end_len(s: Seq<char>)
    ensures
        text::trimmed_end(s).len() <= s.len(),
    decreases s.len(),
{
    if s.len() > 0 {
        lemma_end_len(s.drop_last());
    }
}

proof fn lemma_line_len(s: Seq<char>)
    ensures
        forall|i: int| 0 <= i < text::line_list(s).len() ==> (#[trigger] text::line_list(s)[i]).len()
            <= s.len(),
    decreases s.len(),
{
    text::lemma_first_at(s, '\n');
    let k = text::first_at(s, '\n') as int;
    if s.len() > 0 && k < s.len() {
        lemma_line_len(s.skip(k + 1));
        let rest = text::line_list(s.skip(k + 1));
        assert forall|i: int| 0 <= i < text::line_list(s).len() implies (
        #[trigger] text::line_list(s)[i]).len() <= s.len() by {
            if i > 0 {
                assert(text::line_list(s)[i] == rest[i - 1]);
            }
        }
    }
}

proof fn lemma_key_len(lines: Seq<Seq<char>>, bound: nat)
    requires
        forall|i: int| 0 <= i < lines.len() ==> (#[trigger] lines[i]).len() <= bound,
    ensures
        key_in(lines).len() <= bound,
    decreases lines.len(),
{
    if lines.len() > 0 {
        let last = lines.last();
        assert(last == lines[lines.len() - 1]);
        text::lemma_first_at(last, ':');
        match text::cut_first(last, ':') {
            Some((_, value)) => lemma_trimmed_len(value),
            None => {},
        }
        assert forall|i: int| 0 <= i < lines.drop_last().len() implies (
        #[trigger] lines.drop_last()[i]).len() <= bound by {
            assert(lines.drop_last()[i] == lines[i]);
        }
        lemma_key_len(lines.drop_last(), bound);
    }
}

fn find_key(lines: &Vec<String>) -> (r: String)
    ensures
        r@ == key_in(text::views(lines@)),
{
    let ghost all = text::views(lines@);
    let mut i: usize = lines.len();
    assert(all.take(lines@.len() as int) =~= all);
    while i > 0
        invariant
            i <= lines@.len(),
            all == text::views(lines@),
            key_in(all) == key_in(all.take(i as int)),
        decreases i,
    {
        assert(all.take(i as int).last() == lines@[i - 1]@);
        assert(all.take(i as int).drop_last() =~= all.take(i - 1));
        let lower = text::to_ascii_lower(lines[i - 1].as_str());
        if text::starts_with(lower.as_str(), "sec-websocket-key:") {
            return match text::split_once(lines[i - 1].as_str(), ':') {
                Some((_, value)) => text::trim(value.as_str()),
                None => {
                    let r = String::new();
                    assert(r@ =~= Seq::empty());
                    r
                },
            };
        }
        i -= 1;
    }
    let r = String::new();
    assert(r@ =~= Seq::empty());
    r
}

fn can_read_token(request: &str) -> (r: bool)
    ensures
        r == token_readable(request@),
{
    let lower = text::to_ascii_lower(request);
    match text::find(lower.as_str(), "x-sysmon-token:") {
        Some(i) => {
            let chars = text::chars_of(request);
            let n: usize = chars.len();
            n > 15 && i < n - 15 && (chars[i + 15] as u32) < 128
        },
        None => true,
    }
}

fn supplied_token(request: &str) -> (r: String)
    requires
        token_readable(request@),
    ensures
        r@ == token_in(request@),
{
    let lower = text::to_ascii_lower(request);
    match text::find(lower.as_str(), "x-sysmon-token:") {
        Some(i) => {
            let n: usize = request.unicode_len();
            assert(i + 15 < n);
            let rest = text::skip_chars(request, i + 16);
            let lines = text::lines(rest.as_str());
            assert(text::line_list(rest@).len() == lines@.len());
            if lines.len() > 0 {
                assert(text::line_list(rest@)[0] == lines@[0]@);
                text::trim(lines[0].as_str())
            } else {
                let r = String::new();
                assert(r@ =~= text::trimmed(Seq::<char>::empty()));
                r
            }
        },
        None => {
            proof {
                reveal_strlit("token=");
            }
            match text::find(request, "token=") {
                Some(i) => {
                    let n: usize = request.unicode_len();
                    assert(i + 6 <= n);
                    let rest = text::skip_chars(request, i + 6);
                    text::take_before(rest.as_str(), '&', ' ')
                },
                None => {
                    let r = String::new();
                    assert(r@ =~= Seq::empty());
                    r
                },
            }
        },
    }
}

/// Whether a request has an answer.
pub fn can_answer(request: &str, token: &str) -> (r: bool)
    ensures
        r == answerable(request@, token@),
{
    if text::is_empty(token) {
        return true;
    }
    let lines = text::lines(request);
    let key = find_key(&lines);
    text::is_empty(key.as_str()) || can_read_token(request)
}

/// Answers a handshake request: the header lines up to the blank one.
pub fn websocket_handshake(request: &str, token: &str) -> (r: Handshake)
    requires
        32 * (request@.len() + 64) <= usize::MAX,
        answerable(request@, token@),
    ensures
        r@ == greeting(request@, token@),
{
    let lines = text::lines(request);
    let key = find_key(&lines);
    if text::is_empty(key.as_str()) {
        return Handshake::Refused(text::copy(BAD_REQUEST));
    }
    if !text::is_empty(token) {
        let supplied = supplied_token(request);
        if !text::same(supplied.as_str(), token) {
            return Handshake::Refused(text::copy(UNAUTHORIZED));
        }
    }
    proof {
        lemma_line_len(request@);
        lemma_key_len(text::line_list(request@), request@.len());
    }
    let accept = websocket_accept(key.as_str());
    Handshake::Accepted(text::cat3(SWITCHING, accept.as_str(), "\r\n\r\n"))
}

/// Where a token is set, only a request that brings it is accepted, and a
/// request without a key never is.
pub proof fn strangers_are_refused(request: Seq<char>, token: Seq<char>)
    requires
        token.len() > 0,
    ensures
        greeting(request, token) is Accepted ==> token_in(request) == token,
        greeting(request, token) is Accepted ==> key_in(text::line_list(request)).len() > 0,
        greeting(request, token) is Refused ==> greeting(request, token) == Greeting::Refused(
            BAD_REQUEST@,
        ) || greeting(request, token) == Greeting::Refused(UNAUTHORIZED@),
{
}

/// A close ends the connection, a ping is answered with its own payload, a text
/// is a command, and anything else is ignored.
pub proof fn frames_lead_to_reactions(opcode: u8, payload: Seq<u8>)
    requires
        payload.len() < 126,
    ensures
        reaction_to(opcode, payload) is Close <==> opcode == 8,
        reaction_to(opcode, payload) is Command <==> opcode == 1,
        reaction_to(opcode, payload) is Pong <==> opcode == 9,
        opcode == 9 ==> (reaction_to(opcode, payload) matches Answer::Pong(frame) && parsed(frame)
            == (Parsed::Frame { opcode: 10, payload, used: (payload.len() + 2) as nat })),
{
    if opcode == 9 {
        let frame = pong(payload);
        assert(frame[0] == 0x8a);
        assert(frame[1] == payload.len());
        assert(frame.subrange(2, frame.len() as int) =~= payload);
    }
}

/// The key is what follows the colon of the header, in any case of its name and
/// without whitespace; the last one counts and other lines do not matter.
pub proof fn keys_stand_in_their_header(lines: Seq<Seq<char>>, name: Seq<char>, value: Seq<char>, other: Seq<char>)
    requires
        text::ascii_lower(name.push(':')) == "sec-websocket-key:"@,
        !name.contains(':'),
        !text::begins(text::ascii_lower(other), "sec-websocket-key:"@),
    ensures
        key_in(lines.push(name.push(':') + value)) == text::trimmed(value),
        key_in(lines.push(other)) == key_in(lines),
        key_in(Seq::empty()).len() == 0,
{
    let line = name.push(':') + value;
    let lower = text::ascii_lower(line);
    assert(lower.take("sec-websocket-key:"@.len() as int) =~= text::ascii_lower(name.push(':')));
    text::cuts_at_the_first_mark(name, value, ':');
    assert(lines.push(other).drop_last() =~= lines);
}

/// A request with a key is accepted where no token is set or where it brings the
/// token, and the answer proves that the key was read. Without a key it is bad,
/// without the token not authorized.
pub proof fn handshakes_are_answered(request: Seq<char>, token: Seq<char>)
    ensures
        ({
            let key = key_in(text::line_list(request));
            let allowed = token.len() == 0 || token_in(request) == token;
            &&& key.len() == 0 ==> greeting(request, token) == Greeting::Refused(
                "HTTP/1.1 400 Bad Request\r\nContent-Length: 0\r\n\r\n"@,
            )
            &&& key.len() > 0 && !allowed ==> greeting(request, token) == Greeting::Refused(
                "HTTP/1.1 401 Unauthorized\r\nContent-Length: 0\r\n\r\n"@,
            )
            &&& key.len() > 0 && allowed ==> greeting(request, token) == Greeting::Accepted(
                "HTTP/1.1 101 Switching Protocols\r\nUpgrade: websocket\r\nConnection: Upgrade\r\nSec-WebSocket-Accept: "@
                    + digest::base64_of(
                    digest::sha1_of(
                        vstd::utf8::encode_utf8(
                            key + "258EAFA5-E914-47DA-95CA-C5AB0DC85B11"@,
                        ),
                    ),
                ) + "\r\n\r\n"@,
            )
        }),
{
}

/// The token in an address stands behind `token=` and ends at `&` or a space.
pub proof fn tokens_stand_in_the_address(before: Seq<char>, token: Seq<char>, behind: Seq<char>)
    requires
        ({
            let request = before + "token="@ + token + behind;
            &&& text::find_at(text::ascii_lower(request), "x-sysmon-token:"@, 0) is None
            &&& text::find_at(request, "token="@, 0) == Some(before.len() as int)
        }),
        forall|i: int| 0 <= i < token.len() ==> token[i] != '&' && token[i] != ' ',
        behind.len() == 0 || behind[0] == '&' || behind[0] == ' ',
    ensures
        token_in(before + "token="@ + token + behind) == token,
{
    reveal_strlit("token=");
    let request = before + "token="@ + token + behind;
    assert(request.skip((before.len() + 6) as int) =~= token + behind);
    text::heads_end_at_the_mark(token, behind, '&', ' ');
}

/// Payloads up to a megabyte are accepted, larger ones are not.
pub proof fn large_payloads_are_refused(bytes: Seq<u8>)
    requires
        bytes.len() >= 10,
    ensures
        parsed(bytes) is TooLong <==> length_in(bytes) > 1024 * 1024,
{
}

/// The token in a header is the rest of its line, one character behind the colon
/// and without whitespace; the header goes before the address.
pub proof fn tokens_stand_in_the_header(before: Seq<char>, name: Seq<char>, gap: char, token: Seq<char>, rest: Seq<char>)
    requires
        name.len() == 15,
        !token.contains('\n'),
        token.len() > 0,
        token.last() != '\r',
        ({
            let request = before + name + (seq![gap] + (token.push('\n') + rest));
            text::find_at(text::ascii_lower(request), "x-sysmon-token:"@, 0) == Some(
                before.len() as int,
            )
        }),
    ensures
        token_in(before + name + (seq![gap] + (token.push('\n') + rest))) == text::trimmed(token),
{
    let request = before + name + (seq![gap] + (token.push('\n') + rest));
    assert(request.skip((before.len() + 16) as int) =~= token.push('\n') + rest);
    text::lines_end_at_line_feeds(token, rest);
    let lines = text::line_list(token.push('\n') + rest);
    assert(lines[0] == token);
}

} // verus!
