//! SHA-1 and base64, as the WebSocket handshake needs them.
use vstd::prelude::*;

verus! {

// ---------------------------------------------------------------- bytes

/// The last `k` bytes of a number, most significant first.
pub open spec fn be_bytes(n: nat, k: nat) -> Seq<u8>
    decreases k,
{
    if k == 0 {
        Seq::empty()
    } else {
        be_bytes(n / 256, (k - 1) as nat).push((n % 256) as u8)
    }
}

/// The number that bytes denote, most significant first.
pub open spec fn be_value(bytes: Seq<u8>) -> nat
    decreases bytes.len(),
{
    if bytes.len() == 0 {
        0
    } else {
        be_value(bytes.drop_last()) * 256 + bytes.last() as nat
    }
}

/// Two to the power `8 * k`.
pub open spec fn span(k: nat) -> nat
    decreases k,
{
    if k == 0 {
        1
    } else {
        256 * span((k - 1) as nat)
    }
}

/// The bytes of a number denote the number.
pub proof fn lemma_be_bytes(n: nat, k: nat)
    requires
        n < span(k),
    ensures
        be_bytes(n, k).len() == k,
        be_value(be_bytes(n, k)) == n,
    decreases k,
{
    if k > 0 {
        assert(n / 256 < span((k - 1) as nat));
        lemma_be_bytes(n / 256, (k - 1) as nat);
        let all = be_bytes(n, k);
        assert(all.drop_last() =~= be_bytes(n / 256, (k - 1) as nat));
        assert(all.last() == (n % 256) as u8);
    }
}

/// Appends the last eight bytes of a number.
pub fn push_u64(out: &mut Vec<u8>, n: u64)
    ensures
        final(out)@ == old(out)@ + be_bytes(n as nat, 8),
{
    proof {
        reveal_with_fuel(be_bytes, 9);
    }
    let a: u64 = n / 256;
    let b: u64 = a / 256;
    let c: u64 = b / 256;
    let d: u64 = c / 256;
    let e: u64 = d / 256;
    let f: u64 = e / 256;
    let g: u64 = f / 256;
    out.push((g % 256) as u8);
    out.push((f % 256) as u8);
    out.push((e % 256) as u8);
    out.push((d % 256) as u8);
    out.push((c % 256) as u8);
    out.push((b % 256) as u8);
    out.push((a % 256) as u8);
    out.push((n % 256) as u8);
    assert(out@ =~= old(out)@ + be_bytes(n as nat, 8));
}

/// Appends the last two bytes of a number.
pub fn push_u16(out: &mut Vec<u8>, n: u16)
    ensures
        final(out)@ == old(out)@ + be_bytes(n as nat, 2),
{
    proof {
        reveal_with_fuel(be_bytes, 3);
    }
    out.push(((n / 256) % 256) as u8);
    out.push((n % 256) as u8);
    assert(out@ =~= old(out)@ + be_bytes(n as nat, 2));
}

fn push_u32(out: &mut Vec<u8>, n: u32)
    ensures
        final(out)@ == old(out)@ + be_bytes(n as nat, 4),
{
    proof {
        reveal_with_fuel(be_bytes, 5);
    }
    let a: u32 = n / 256;
    let b: u32 = a / 256;
    let c: u32 = b / 256;
    out.push((c % 256) as u8);
    out.push((b % 256) as u8);
    out.push((a % 256) as u8);
    out.push((n % 256) as u8);
    assert(out@ =~= old(out)@ + be_bytes(n as nat, 4));
}

// ---------------------------------------------------------------- SHA-1

/// The message, a one bit, zeros up to eight bytes before a multiple of 64,
/// and the length in bits.
pub open spec fn padded(data: Seq<u8>) -> Seq<u8> {
    data.push(0x80) + Seq::new(((119 - data.len() % 64) % 64) as nat, |i: int| 0u8) + be_bytes(
        data.len() * 8,
        8,
    )
}

/// `x` rotated to the left by `n` bits.
pub open spec fn rotated(x: u32, n: u32) -> u32 {
    (x << n) | (x >> ((32 - n) as u32))
}

/// Addition modulo 2^32.
pub open spec fn plus(a: u32, b: u32) -> u32 {
    a.wrapping_add(b)
}

/// The word `t` of the schedule of a block.
pub open spec fn schedule(block: Seq<u8>, t: nat) -> u32
    decreases t,
{
    if t < 16 {
        be_value(block.subrange(4 * t as int, 4 * t as int + 4)) as u32
    } else {
        rotated(
            schedule(block, (t - 3) as nat) ^ schedule(block, (t - 8) as nat) ^ schedule(
                block,
                (t - 14) as nat,
            ) ^ schedule(block, (t - 16) as nat),
            1,
        )
    }
}

/// The five words of the hash state.
#[derive(Clone, Copy)]
pub struct Words {
    pub a: u32,
    pub b: u32,
    pub c: u32,
    pub d: u32,
    pub e: u32,
}

/// The logical function of round `t`.
pub open spec fn choose_bits(t: nat, b: u32, c: u32, d: u32) -> u32 {
    if t < 20 {
        (b & c) | ((!b) & d)
    } else if t < 40 {
        b ^ c ^ d
    } else if t < 60 {
        (b & c) | (b & d) | (c & d)
    } else {
        b ^ c ^ d
    }
}

/// The constant of round `t`.
pub open spec fn round_constant(t: nat) -> u32 {
    if t < 20 {
        0x5A827999
    } else if t < 40 {
        0x6ED9EBA1
    } else if t < 60 {
        0x8F1BBCDC
    } else {
        0xCA62C1D6
    }
}

/// One round.
pub open spec fn round(w: Words, t: nat, word: u32) -> Words {
    Words {
        a: plus(
            plus(
                plus(plus(rotated(w.a, 5), choose_bits(t, w.b, w.c, w.d)), w.e),
                round_constant(t),
            ),
            word,
        ),
        b: w.a,
        c: rotated(w.b, 30),
        d: w.c,
        e: w.d,
    }
}

/// The state after the first `t` rounds on a block.
pub open spec fn rounds(h: Words, block: Seq<u8>, t: nat) -> Words
    decreases t,
{
    if t == 0 {
        h
    } else {
        round(rounds(h, block, (t - 1) as nat), (t - 1) as nat, schedule(block, (t - 1) as nat))
    }
}

/// The state after one block.
pub open spec fn compressed(h: Words, block: Seq<u8>) -> Words {
    let w = rounds(h, block, 80);
    Words {
        a: plus(h.a, w.a),
        b: plus(h.b, w.b),
        c: plus(h.c, w.c),
        d: plus(h.d, w.d),
        e: plus(h.e, w.e),
    }
}

/// The state after the first `n` blocks of a message.
pub open spec fn absorbed(message: Seq<u8>, n: nat) -> Words
    decreases n,
{
    if n == 0 {
        Words { a: 0x67452301, b: 0xEFCDAB89, c: 0x98BADCFE, d: 0x10325476, e: 0xC3D2E1F0 }
    } else {
        compressed(
            absorbed(message, (n - 1) as nat),
            message.subrange(64 * (n - 1), 64 * n as int),
        )
    }
}

/// The SHA-1 digest of a message.
pub open spec fn sha1_of(data: Seq<u8>) -> Seq<u8> {
    let w = absorbed(padded(data), padded(data).len() / 64);
    be_bytes(w.a as nat, 4) + be_bytes(w.b as nat, 4) + be_bytes(w.c as nat, 4) + be_bytes(
        w.d as nat,
        4,
    ) + be_bytes(w.e as nat, 4)
}

fn rotate(x: u32, n: u32) -> (r: u32)
    requires
        0 < n < 32,
    ensures
        r == rotated(x, n),
{
    (x << n) | (x >> (32 - n))
}

fn word_at(message: &Vec<u8>, at: usize) -> (r: u32)
    requires
        at + 4 <= message@.len(),
    ensures
        r == be_value(message@.subrange(at as int, at + 4)) as u32,
{
    let n: usize = message.len();
    assert(at + 4 <= n);
    let a: u32 = message[at] as u32;
    let b: u32 = message[at + 1] as u32;
    let c: u32 = message[at + 2] as u32;
    let d: u32 = message[at + 3] as u32;
    proof {
        let s = message@.subrange(at as int, at + 4);
        reveal_with_fuel(be_value, 5);
        assert(s.drop_last().drop_last().drop_last().drop_last().len() == 0);
        assert(s[0] == a && s[1] == b && s[2] == c && s[3] == d);
    }
    ((a * 256 + b) * 256 + c) * 256 + d
}

fn expand(message: &Vec<u8>, at: usize) -> (r: Vec<u32>)
    requires
        at + 64 <= message@.len(),
    ensures
        r@.len() == 80,
        forall|t: int|
            0 <= t < 80 ==> #[trigger] r@[t] == schedule(
                message@.subrange(at as int, at + 64),
                t as nat,
            ),
{
    let ghost block = message@.subrange(at as int, at + 64);
    let n: usize = message.len();
    let mut w: Vec<u32> = Vec::new();
    let mut t: usize = 0;
    while t < 16
        invariant
            t <= 16,
            at + 64 <= n == message@.len(),
            block == message@.subrange(at as int, at + 64),
            w@.len() == t,
            forall|k: int| 0 <= k < t ==> #[trigger] w@[k] == schedule(block, k as nat),
        decreases 16 - t,
    {
        assert(block.subrange(4 * t as int, 4 * t as int + 4) =~= message@.subrange(
            at + 4 * t,
            at + 4 * t + 4,
        ));
        w.push(word_at(message, at + 4 * t));
        t += 1;
    }
    while t < 80
        invariant
            16 <= t <= 80,
            w@.len() == t,
            forall|k: int| 0 <= k < t ==> #[trigger] w@[k] == schedule(block, k as nat),
        decreases 80 - t,
    {
        let x: u32 = w[t - 3] ^ w[t - 8] ^ w[t - 14] ^ w[t - 16];
        w.push(rotate(x, 1));
        t += 1;
    }
    w
}

fn mix(state: Words, t: usize, word: u32) -> (r: Words)
    requires
        t < 80,
    ensures
        r == round(state, t as nat, word),
{
    let b: u32 = state.b;
    let c: u32 = state.c;
    let d: u32 = state.d;
    let f: u32 = if t < 20 {
        (b & c) | ((!b) & d)
    } else if t < 40 {
        b ^ c ^ d
    } else if t < 60 {
        (b & c) | (b & d) | (c & d)
    } else {
        b ^ c ^ d
    };
    let k: u32 = if t < 20 {
        0x5A827999
    } else if t < 40 {
        0x6ED9EBA1
    } else if t < 60 {
        0x8F1BBCDC
    } else {
        0xCA62C1D6
    };
    let a: u32 = rotate(state.a, 5).wrapping_add(f).wrapping_add(state.e).wrapping_add(
        k,
    ).wrapping_add(word);
    Words { a, b: state.a, c: rotate(b, 30), d: c, e: d }
}

fn compress(h: Words, message: &Vec<u8>, at: usize) -> (r: Words)
    requires
        at + 64 <= message@.len(),
    ensures
        r == compressed(h, message@.subrange(at as int, at + 64)),
{
    let ghost block = message@.subrange(at as int, at + 64);
    let w = expand(message, at);
    let mut state = h;
    let mut t: usize = 0;
    while t < 80
        invariant
            t <= 80,
            w@.len() == 80,
            forall|k: int| 0 <= k < 80 ==> #[trigger] w@[k] == schedule(block, k as nat),
            state == rounds(h, block, t as nat),
        decreases 80 - t,
    {
        state = mix(state, t, w[t]);
        t += 1;
    }
    Words {
        a: h.a.wrapping_add(state.a),
        b: h.b.wrapping_add(state.b),
        c: h.c.wrapping_add(state.c),
        d: h.d.wrapping_add(state.d),
        e: h.e.wrapping_add(state.e),
    }
}

proof fn lemma_be_len(n: nat, k: nat)
    ensures
        be_bytes(n, k).len() == k,
    decreases k,
{
    if k > 0 {
        lemma_be_len(n / 256, (k - 1) as nat);
    }
}

proof fn lemma_padding(n: int)
    requires
        n >= 0,
    ensures
        (n + 1 + (119 - n % 64) % 64 + 8) % 64 == 0,
{
}

fn pad(data: &Vec<u8>) -> (r: Vec<u8>)
    requires
        data@.len() * 8 <= u64::MAX,
        data@.len() + 72 <= usize::MAX,
    ensures
        r@ == padded(data@),
        r@.len() % 64 == 0,
{
    let n: usize = data.len();
    let mut message: Vec<u8> = Vec::new();
    let mut i: usize = 0;
    while i < n
        invariant
            i <= n == data@.len(),
            message@ == data@.take(i as int),
        decreases n - i,
    {
        message.push(data[i]);
        assert(message@ =~= data@.take(i + 1));
        i += 1;
    }
    assert(message@ =~= data@);
    message.push(0x80);
    let zeros: usize = (119 - n % 64) % 64;
    let ghost head = message@;
    let mut k: usize = 0;
    while k < zeros
        invariant
            k <= zeros,
            message@ == head + Seq::new(k as nat, |i: int| 0u8),
        decreases zeros - k,
    {
        message.push(0);
        assert(message@ =~= head + Seq::new((k + 1) as nat, |i: int| 0u8));
        k += 1;
    }
    assert(message@ =~= head + Seq::new(zeros as nat, |i: int| 0u8));
    push_u64(&mut message, (n as u64) * 8);
    proof {
        lemma_be_len((n * 8) as nat, 8);
        lemma_padding(n as int);
        assert(message@.len() == n + 1 + zeros + 8);
    }
    message
}

/// The SHA-1 digest of the bytes.
pub fn sha1(data: &Vec<u8>) -> (r: Vec<u8>)
    requires
        data@.len() * 8 <= u64::MAX,
        data@.len() + 72 <= usize::MAX,
    ensures
        r@ == sha1_of(data@),
{
    let message = pad(data);
    let ghost all = padded(data@);
    let n: usize = message.len();
    let mut h = Words {
        a: 0x67452301,
        b: 0xEFCDAB89,
        c: 0x98BADCFE,
        d: 0x10325476,
        e: 0xC3D2E1F0,
    };
    let mut at: usize = 0;
    while at < n
        invariant
            at <= n == message@.len(),
            n % 64 == 0,
            at % 64 == 0,
            message@ == all,
            h == absorbed(all, (at / 64) as nat),
        decreases n - at,
    {
        let ghost k = (at / 64) as nat;
        assert(at + 64 <= n);
        h = compress(h, &message, at);
        assert(all.subrange(64 * k as int, 64 * (k + 1) as int) =~= message@.subrange(at as int, at + 64));
        assert((at + 64) / 64 == k + 1);
        at += 64;
    }
    let mut out: Vec<u8> = Vec::new();
    push_u32(&mut out, h.a);
    push_u32(&mut out, h.b);
    push_u32(&mut out, h.c);
    push_u32(&mut out, h.d);
    push_u32(&mut out, h.e);
    assert(out@ =~= sha1_of(data@));
    out
}

// ---------------------------------------------------------------- base64

/// The character for six bits.
pub open spec fn letter(v: int) -> char {
    if v < 26 {
        ('A' as int + v) as char
    } else if v < 52 {
        ('a' as int + (v - 26)) as char
    } else if v < 62 {
        ('0' as int + (v - 52)) as char
    } else if v == 62 {
        '+'
    } else {
        '/'
    }
}

/// The four characters for three bytes.
pub open spec fn quartet(a: int, b: int, c: int) -> Seq<char> {
    seq![
        letter(a / 4),
        letter((a % 4) * 16 + b / 16),
        letter((b % 16) * 4 + c / 64),
        letter(c % 64),
    ]
}

/// The base64 text of bytes, padded with `=`.
pub open spec fn base64_of(data: Seq<u8>) -> Seq<char>
    decreases data.len(),
{
    if data.len() == 0 {
        Seq::empty()
    } else if data.len() == 1 {
        quartet(data[0] as int, 0, 0).take(2) + seq!['=', '=']
    } else if data.len() == 2 {
        quartet(data[0] as int, data[1] as int, 0).take(3) + seq!['=']
    } else {
        quartet(data[0] as int, data[1] as int, data[2] as int) + base64_of(data.skip(3))
    }
}

fn letter_of(v: u32) -> (r: char)
    requires
        v < 64,
    ensures
        r == letter(v as int),
{
    if v < 26 {
        (65 + v as u8) as char
    } else if v < 52 {
        (97 + (v as u8 - 26)) as char
    } else if v < 62 {
        (48 + (v as u8 - 52)) as char
    } else if v == 62 {
        '+'
    } else {
        '/'
    }
}

/// The base64 text of the bytes.
pub fn base64(data: &Vec<u8>) -> (r: String)
    ensures
        r@ == base64_of(data@),
{
    let n: usize = data.len();
    let mut out = String::new();
    let mut i: usize = 0;
    assert(data@.skip(0) =~= data@);
    assert(out@ + base64_of(data@) =~= base64_of(data@));
    while i < n
        invariant
            i <= n == data@.len(),
            base64_of(data@) == out@ + base64_of(data@.skip(i as int)),
        decreases n - i,
    {
        let left: usize = n - i;
        let ghost rest = data@.skip(i as int);
        let ghost before = out@;
        let a: u32 = data[i] as u32;
        let b: u32 = if left > 1 {
            data[i + 1] as u32
        } else {
            0
        };
        let c: u32 = if left > 2 {
            data[i + 2] as u32
        } else {
            0
        };
        out.push(letter_of(a / 4));
        out.push(letter_of((a % 4) * 16 + b / 16));
        if left > 1 {
            out.push(letter_of((b % 16) * 4 + c / 64));
        } else {
            out.push('=');
        }
        if left > 2 {
            out.push(letter_of(c % 64));
        } else {
            out.push('=');
        }
        let ghost four = quartet(a as int, b as int, c as int);
        assert(rest[0] == a);
        if left >= 3 {
            assert(out@ =~= before + four);
            assert(rest.skip(3) =~= data@.skip(i + 3));
            assert(base64_of(data@) =~= out@ + base64_of(data@.skip(i + 3)));
            i += 3;
        } else {
            proof {
                if left == 1 {
                    assert(out@ =~= before + (four.take(2) + seq!['=', '=']));
                } else {
                    assert(rest[1] == b);
                    assert(out@ =~= before + (four.take(3) + seq!['=']));
                }
                assert(data@.skip(n as int) =~= Seq::empty());
                assert(base64_of(data@) =~= out@ + base64_of(data@.skip(n as int)));
            }
            i = n;
        }
    }
    assert(data@.skip(n as int) =~= Seq::empty());
    assert(out@ + base64_of(data@.skip(n as int)) =~= out@);
    out
}

/// The six bits that a character stands for.
pub open spec fn sextet(c: char) -> int {
    if 'A' <= c <= 'Z' {
        c as int - 'A' as int
    } else if 'a' <= c <= 'z' {
        c as int - 'a' as int + 26
    } else if '0' <= c <= '9' {
        c as int - '0' as int + 52
    } else if c == '+' {
        62
    } else {
        63
    }
}

/// The bytes that a base64 text stands for.
pub open spec fn unbase64(s: Seq<char>) -> Seq<u8>
    decreases s.len(),
{
    if s.len() < 4 {
        Seq::empty()
    } else {
        let a = (sextet(s[0]) * 4 + sextet(s[1]) / 16) as u8;
        let b = ((sextet(s[1]) % 16) * 16 + sextet(s[2]) / 4) as u8;
        let c = ((sextet(s[2]) % 4) * 64 + sextet(s[3])) as u8;
        if s[2] == '=' {
            seq![a]
        } else if s[3] == '=' {
            seq![a, b]
        } else {
            seq![a, b, c] + unbase64(s.skip(4))
        }
    }
}

proof fn lemma_sextet(v: int)
    requires
        0 <= v < 64,
    ensures
        sextet(letter(v)) == v,
        letter(v) != '=',
{
}

proof fn lemma_quartet(a: int, b: int, c: int)
    requires
        0 <= a < 256,
        0 <= b < 256,
        0 <= c < 256,
    ensures
        ({
            let q = quartet(a, b, c);
            &&& q.len() == 4
            &&& q[2] != '='
            &&& q[3] != '='
            &&& sextet(q[0]) * 4 + sextet(q[1]) / 16 == a
            &&& (sextet(q[1]) % 16) * 16 + sextet(q[2]) / 4 == b
            &&& (sextet(q[2]) % 4) * 64 + sextet(q[3]) == c
        }),
{
    lemma_sextet(a / 4);
    lemma_sextet((a % 4) * 16 + b / 16);
    lemma_sextet((b % 16) * 4 + c / 64);
    lemma_sextet(c % 64);
}

/// Reading the base64 text of bytes gives the bytes back, and every three
/// bytes, or what is left of them, take four characters.
pub proof fn base64_keeps_the_bytes(data: Seq<u8>)
    ensures
        unbase64(base64_of(data)) == data,
        base64_of(data).len() == 4 * ((data.len() + 2) / 3),
    decreases data.len(),
{
    let s = base64_of(data);
    if data.len() == 0 {
        assert(unbase64(s) =~= data);
    } else if data.len() == 1 {
        lemma_quartet(data[0] as int, 0, 0);
        assert(unbase64(s) =~= data);
    } else if data.len() == 2 {
        lemma_quartet(data[0] as int, data[1] as int, 0);
        assert(unbase64(s) =~= data);
    } else {
        lemma_quartet(data[0] as int, data[1] as int, data[2] as int);
        base64_keeps_the_bytes(data.skip(3));
        assert(s.skip(4) =~= base64_of(data.skip(3)));
        let q = quartet(data[0] as int, data[1] as int, data[2] as int);
        assert(s[0] == q[0] && s[1] == q[1] && s[2] == q[2] && s[3] == q[3]);
        assert(unbase64(s) =~= data);
    }
}

proof fn lemma_be_length(n: nat, k: nat)
    ensures
        be_bytes(n, k).len() == k,
    decreases k,
{
    if k > 0 {
        lemma_be_length(n / 256, (k - 1) as nat);
    }
}

proof fn lemma_block_fill(n: int)
    requires
        0 <= n,
    ensures
        0 <= (119 - n % 64) % 64 < 64,
        (n + 9 + (119 - n % 64) % 64) % 64 == 0,
{
    let r = n % 64;
    let q = n / 64;
    assert(n == 64 * q + r);
    if r <= 55 {
        assert((119 - r) % 64 == 55 - r);
        assert(n + 9 + (55 - r) == 64 * (q + 1));
    } else {
        assert((119 - r) % 64 == 119 - r);
        assert(n + 9 + (119 - r) == 64 * (q + 2));
    }
}

/// A padded message is the message, a one bit, zeros and its length in bits, and
/// fills whole blocks; no shorter padding would do.
pub proof fn padding_fills_blocks(data: Seq<u8>)
    ensures
        ({
            let p = padded(data);
            &&& p.len() % 64 == 0
            &&& data.len() + 9 <= p.len() < data.len() + 9 + 64
            &&& p.take(data.len() as int) == data
            &&& p[data.len() as int] == 0x80
            &&& forall|i: int| data.len() < i < p.len() - 8 ==> p[i] == 0
            &&& p.skip(p.len() - 8) == be_bytes(data.len() * 8, 8)
        }),
{
    lemma_be_length(data.len() * 8, 8);
    let p = padded(data);
    let n = data.len() as int;
    let zeros = (119 - n % 64) % 64;
    lemma_block_fill(n);
    let tail = Seq::new(zeros as nat, |i: int| 0u8);
    let front = data.push(0x80) + tail;
    assert(p == front + be_bytes(data.len() * 8, 8));
    assert(p.len() == n + 9 + zeros);
    assert forall|i: int| n < i < p.len() - 8 implies p[i] == 0 by {
        assert(p[i] == front[i]);
        assert(front[i] == tail[i - n - 1]);
    }
    assert(p.take(data.len() as int) =~= data);
    assert(p.skip(p.len() - 8) =~= be_bytes(data.len() * 8, 8));
}

/// The constants of the standard: the start of the state and the four rounds.
pub proof fn constants_are_those_of_the_standard(message: Seq<u8>)
    ensures
        absorbed(message, 0) == (Words {
            a: 0x67452301,
            b: 0xEFCDAB89,
            c: 0x98BADCFE,
            d: 0x10325476,
            e: 0xC3D2E1F0,
        }),
        round_constant(0) == 0x5A827999 && round_constant(19) == 0x5A827999,
        round_constant(20) == 0x6ED9EBA1 && round_constant(39) == 0x6ED9EBA1,
        round_constant(40) == 0x8F1BBCDC && round_constant(59) == 0x8F1BBCDC,
        round_constant(60) == 0xCA62C1D6 && round_constant(79) == 0xCA62C1D6,
{
}

/// Each round shifts the words by one, turns the second by 30 bits and mixes the
/// rest into the first.
pub proof fn rounds_shift_the_words(w: Words, t: nat, word: u32)
    ensures
        round(w, t, word).b == w.a,
        round(w, t, word).c == (w.b << 30u32) | (w.b >> 2u32),
        round(w, t, word).d == w.c,
        round(w, t, word).e == w.d,
        t < 20 ==> choose_bits(t, w.b, w.c, w.d) == (w.b & w.c) | (!w.b & w.d),
        20 <= t < 40 || 60 <= t < 80 ==> choose_bits(t, w.b, w.c, w.d) == w.b ^ w.c ^ w.d,
        40 <= t < 60 ==> choose_bits(t, w.b, w.c, w.d) == (w.b & w.c) | (w.b & w.d) | (w.c & w.d),
{
}

/// A digest has twenty bytes.
pub proof fn digests_have_twenty_bytes(data: Seq<u8>)
    ensures
        sha1_of(data).len() == 20,
{
    let w = absorbed(padded(data), padded(data).len() / 64);
    lemma_be_length(w.a as nat, 4);
    lemma_be_length(w.b as nat, 4);
    lemma_be_length(w.c as nat, 4);
    lemma_be_length(w.d as nat, 4);
    lemma_be_length(w.e as nat, 4);
}

/// The alphabet is capitals, small letters, digits, `+` and `/`; three bytes
/// become four characters and the rest is filled up with `=`.
pub proof fn base64_uses_its_alphabet(data: Seq<u8>)
    ensures
        forall|v: int| 0 <= v < 26 ==> #[trigger] letter(v) as int == 'A' as int + v,
        forall|v: int| 26 <= v < 52 ==> #[trigger] letter(v) as int == 'a' as int + v - 26,
        forall|v: int| 52 <= v < 62 ==> #[trigger] letter(v) as int == '0' as int + v - 52,
        letter(62) == '+',
        letter(63) == '/',
        base64_of(data).len() == (data.len() + 2) / 3 * 4,
    decreases data.len(),
{
    if data.len() > 2 {
        base64_uses_its_alphabet(data.skip(3));
    }
}

} // verus!
