//! SHA-1, and digests written in hexadecimal.

use vstd::prelude::*;
use vstd::slice::slice_subrange;

verus! {

// ---------------------------------------------------------------------------
// Hexadecimal
// ---------------------------------------------------------------------------

/// The lower-case hexadecimal digit of `d`.
pub open spec fn hex_digit(d: int) -> char {
    if d < 10 {
        (('0' as int) + d) as char
    } else {
        (('a' as int) + (d - 10)) as char
    }
}

/// `bytes` in lower-case hexadecimal, two digits each.
pub open spec fn hex(bytes: Seq<u8>) -> Seq<char> {
    Seq::new(
        bytes.len() * 2,
        |i: int|
            if i % 2 == 0 {
                hex_digit(bytes[i / 2] as int / 16)
            } else {
                hex_digit(bytes[i / 2] as int % 16)
            },
    )
}

/// The value of a hexadecimal digit of either case.
pub open spec fn hex_value(c: char) -> Option<int> {
    if '0' <= c <= '9' {
        Some((c as int) - ('0' as int))
    } else if 'a' <= c <= 'f' {
        Some((c as int) - ('a' as int) + 10)
    } else if 'A' <= c <= 'F' {
        Some((c as int) - ('A' as int) + 10)
    } else {
        None
    }
}

fn hex_char(d: u8) -> (c: char)
    requires
        d < 16,
    ensures
        c == hex_digit(d as int),
{
    if d < 10 {
        (48u8 + d) as char
    } else {
        (87u8 + d) as char
    }
}

/// `bytes` in lower-case hexadecimal.
pub fn encode_hex(bytes: &[u8]) -> (r: String)
    ensures
        r@ == hex(bytes@),
{
    let mut out = String::new();
    let mut i: usize = 0;
    while i < bytes.len()
        invariant
            i <= bytes.len(),
            out@ == hex(bytes@.take(i as int)),
        decreases bytes.len() - i,
    {
        let ghost was = out@;
        out.push(hex_char(bytes[i] / 16));
        out.push(hex_char(bytes[i] % 16));
        assert(out@ =~= hex(bytes@.take(i + 1))) by {
            let longer = hex(bytes@.take(i + 1));
            assert forall|k: int| 0 <= k < 2 * i implies longer[k] == was[k] by {
                assert(bytes@.take(i + 1)[k / 2] == bytes@.take(i as int)[k / 2]);
            }
            assert(longer[2 * i] == hex_digit(bytes@[i as int] as int / 16));
            assert(longer[2 * i + 1] == hex_digit(bytes@[i as int] as int % 16));
        }
        i += 1;
    }
    assert(bytes@.take(i as int) == bytes@);
    out
}

/// The value of a hexadecimal digit of either case.
pub fn hex_digit_value(c: char) -> (r: Option<u8>)
    ensures
        match r {
            Some(d) => hex_value(c) == Some(d as int) && d < 16,
            None => hex_value(c) is None,
        },
{
    if '0' <= c && c <= '9' {
        Some((c as u32 - 48) as u8)
    } else if 'a' <= c && c <= 'f' {
        Some((c as u32 - 87) as u8)
    } else if 'A' <= c && c <= 'F' {
        Some((c as u32 - 55) as u8)
    } else {
        None
    }
}

/// The value of the digit that stands for `d` is `d`.
pub proof fn lemma_hex_digit(d: int)
    requires
        0 <= d < 16,
    ensures
        hex_value(hex_digit(d)) == Some(d),
{
}

// ---------------------------------------------------------------------------
// SHA-1
// ---------------------------------------------------------------------------

/// The sum of two words modulo 2^32.
pub open spec fn plus(a: u32, b: u32) -> u32 {
    ((a + b) % 0x1_0000_0000) as u32
}

/// `x` rotated left by `n` bits.
pub open spec fn rotated(x: u32, n: u32) -> u32 {
    (x << n) | (x >> ((32 - n) as u32))
}

/// The big-endian word at `bytes[4 * i..]`.
pub open spec fn word_at(bytes: Seq<u8>, i: int) -> u32 {
    ((bytes[4 * i] as u32) << 24u32) | ((bytes[4 * i + 1] as u32) << 16u32) | ((bytes[4 * i
        + 2] as u32) << 8u32) | (bytes[4 * i + 3] as u32)
}

/// The `t`th word of the message schedule of a block.
pub open spec fn schedule(block: Seq<u8>, t: int) -> u32
    decreases t,
{
    if t < 16 {
        word_at(block, t)
    } else {
        rotated(
            schedule(block, t - 3) ^ schedule(block, t - 8) ^ schedule(block, t - 14) ^ schedule(
                block,
                t - 16,
            ),
            1,
        )
    }
}

/// The five words of the running state.
pub struct State {
    pub a: u32,
    pub b: u32,
    pub c: u32,
    pub d: u32,
    pub e: u32,
}

/// The round function of step `t`.
pub open spec fn round_function(t: int, b: u32, c: u32, d: u32) -> u32 {
    if t < 20 {
        (b & c) | ((!b) & d)
    } else if t < 40 {
        b ^ c ^ d
    } else if t < 60 {
        (b & c) | (b & d) | (c & d)
    } else {
        b ^ c ^ d
    }
}

/// The constant of step `t`.
pub open spec fn round_constant(t: int) -> u32 {
    if t < 20 {
        0x5A82_7999
    } else if t < 40 {
        0x6ED9_EBA1
    } else if t < 60 {
        0x8F1B_BCDC
    } else {
        0xCA62_C1D6
    }
}

/// The state after `t` steps on `block`.
pub open spec fn steps(s: State, block: Seq<u8>, t: int) -> State
    decreases t,
{
    if t <= 0 {
        s
    } else {
        let p = steps(s, block, t - 1);
        State {
            a: plus(
                plus(
                    plus(
                        plus(rotated(p.a, 5), round_function(t - 1, p.b, p.c, p.d)),
                        p.e,
                    ),
                    round_constant(t - 1),
                ),
                schedule(block, t - 1),
            ),
            b: p.a,
            c: rotated(p.b, 30),
            d: p.c,
            e: p.d,
        }
    }
}

/// The state after one whole block.
pub open spec fn compressed(s: State, block: Seq<u8>) -> State {
    let r = steps(s, block, 80);
    State {
        a: plus(s.a, r.a),
        b: plus(s.b, r.b),
        c: plus(s.c, r.c),
        d: plus(s.d, r.d),
        e: plus(s.e, r.e),
    }
}

/// The state after the first `n` blocks of `data`.
pub open spec fn after_blocks(data: Seq<u8>, n: int) -> State
    decreases n,
{
    if n <= 0 {
        State { a: 0x6745_2301, b: 0xEFCD_AB89, c: 0x98BA_DCFE, d: 0x1032_5476, e: 0xC3D2_E1F0 }
    } else {
        compressed(after_blocks(data, n - 1), data.subrange(64 * (n - 1), 64 * n))
    }
}

/// The number of zero bytes between the message and its length.
pub open spec fn zero_count(len: int) -> int {
    if len % 64 < 56 {
        55 - len % 64
    } else {
        119 - len % 64
    }
}

/// The `n` low bytes of `v`, most significant first.
pub open spec fn big_endian(v: int, n: int) -> Seq<u8>
    decreases n,
{
    if n <= 0 {
        seq![]
    } else {
        big_endian(v / 256, n - 1).push((v % 256) as u8)
    }
}

/// The message with its padding: a one bit, zeros, and the length in bits.
pub open spec fn padded_message(data: Seq<u8>) -> Seq<u8> {
    data.push(0x80u8) + Seq::new(zero_count(data.len() as int) as nat, |i: int| 0u8) + big_endian(
        data.len() as int * 8,
        8,
    )
}

/// The twenty bytes of a state.
pub open spec fn state_bytes(s: State) -> Seq<u8> {
    big_endian(s.a as int, 4) + big_endian(s.b as int, 4) + big_endian(s.c as int, 4) + big_endian(
        s.d as int,
        4,
    ) + big_endian(s.e as int, 4)
}

/// The SHA-1 digest of `data`.
pub open spec fn sha1_digest(data: Seq<u8>) -> Seq<u8> {
    let padded = padded_message(data);
    state_bytes(after_blocks(padded, padded.len() as int / 64))
}

/// The SHA-1 digest of `data` in hexadecimal.
pub open spec fn sha1_text(data: Seq<u8>) -> Seq<char> {
    hex(sha1_digest(data))
}

proof fn lemma_big_endian_length(v: int, n: int)
    requires
        n >= 0,
    ensures
        big_endian(v, n).len() == n,
    decreases n,
{
    if n > 0 {
        lemma_big_endian_length(v / 256, n - 1);
    }
}

/// A digest is twenty bytes long, and its name forty digits.
pub proof fn lemma_digest_length(data: Seq<u8>)
    ensures
        sha1_digest(data).len() == 20,
        sha1_text(data).len() == 40,
{
    let padded = padded_message(data);
    let s = after_blocks(padded, padded.len() as int / 64);
    lemma_big_endian_length(s.a as int, 4);
    lemma_big_endian_length(s.b as int, 4);
    lemma_big_endian_length(s.c as int, 4);
    lemma_big_endian_length(s.d as int, 4);
    lemma_big_endian_length(s.e as int, 4);
}

pub(crate) fn add32(a: u32, b: u32) -> (r: u32)
    ensures
        r == plus(a, b),
{
    let s: u64 = (a as u64) + (b as u64);
    (s % 0x1_0000_0000) as u32
}

pub(crate) fn rotate(x: u32, n: u32) -> (r: u32)
    requires
        0 < n < 32,
    ensures
        r == rotated(x, n),
{
    (x << n) | (x >> (32 - n))
}

pub(crate) fn push_big_endian(out: &mut Vec<u8>, v: u128, n: u32)
    ensures
        final(out)@ == old(out)@ + big_endian(v as int, n as int),
    decreases n,
{
    if n == 0 {
        assert(out@ + big_endian(v as int, 0) =~= out@);
    } else {
        let ghost was = out@;
        push_big_endian(out, v / 256, n - 1);
        out.push((v % 256) as u8);
        assert(out@ =~= was + big_endian(v as int, n as int));
    }
}

/// Adds zero bytes.
pub(crate) fn push_zeros(out: &mut Vec<u8>, zeros: usize)
    ensures
        final(out)@ == old(out)@ + Seq::new(zeros as nat, |i: int| 0u8),
{
    let ghost base = out@;
    let mut z: usize = 0;
    assert(out@ =~= base + Seq::new(0, |i: int| 0u8));
    while z < zeros
        invariant
            z <= zeros,
            out@ == base + Seq::new(z as nat, |i: int| 0u8),
        decreases zeros - z,
    {
        out.push(0);
        z += 1;
        assert(out@ =~= base + Seq::new(z as nat, |i: int| 0u8));
    }
}

/// The message with its padding.
pub(crate) fn pad_message(data: &[u8]) -> (r: Vec<u8>)
    ensures
        r@ == padded_message(data@),
{
    let mut padded: Vec<u8> = crate::text::copy_bytes(data);
    padded.push(0x80);
    let rest: usize = data.len() % 64;
    let zeros: usize = if rest < 56 {
        55 - rest
    } else {
        119 - rest
    };
    push_zeros(&mut padded, zeros);
    push_big_endian(&mut padded, (data.len() as u128) * 8, 8);
    padded
}

fn compress(s: &State, block: &[u8]) -> (r: State)
    requires
        block@.len() == 64,
    ensures
        r == compressed(*s, block@),
{
    let mut w: Vec<u32> = Vec::new();
    let mut t: usize = 0;
    while t < 16
        invariant
            t <= 16,
            w@.len() == t,
            block@.len() == 64,
            forall|i: int| 0 <= i < t ==> w@[i] == #[trigger] schedule(block@, i),
        decreases 16 - t,
    {
        let word: u32 = ((block[4 * t] as u32) << 24u32) | ((block[4 * t + 1] as u32) << 16u32) | ((
        block[4 * t + 2] as u32) << 8u32) | (block[4 * t + 3] as u32);
        w.push(word);
        t += 1;
    }
    while t < 80
        invariant
            16 <= t <= 80,
            w@.len() == t,
            forall|i: int| 0 <= i < t ==> w@[i] == #[trigger] schedule(block@, i),
        decreases 80 - t,
    {
        let word = rotate(w[t - 3] ^ w[t - 8] ^ w[t - 14] ^ w[t - 16], 1);
        assert(w@[t - 3] == schedule(block@, t - 3));
        assert(w@[t - 8] == schedule(block@, t - 8));
        assert(w@[t - 14] == schedule(block@, t - 14));
        assert(w@[t - 16] == schedule(block@, t - 16));
        w.push(word);
        t += 1;
    }
    let mut a = s.a;
    let mut b = s.b;
    let mut c = s.c;
    let mut d = s.d;
    let mut e = s.e;
    let mut i: usize = 0;
    while i < 80
        invariant
            i <= 80,
            w@.len() == 80,
            forall|i: int| 0 <= i < 80 ==> w@[i] == #[trigger] schedule(block@, i),
            (State { a, b, c, d, e }) == steps(*s, block@, i as int),
        decreases 80 - i,
    {
        let f: u32 = if i < 20 {
            (b & c) | ((!b) & d)
        } else if i < 40 {
            b ^ c ^ d
        } else if i < 60 {
            (b & c) | (b & d) | (c & d)
        } else {
            b ^ c ^ d
        };
        let k: u32 = if i < 20 {
            0x5A82_7999
        } else if i < 40 {
            0x6ED9_EBA1
        } else if i < 60 {
            0x8F1B_BCDC
        } else {
            0xCA62_C1D6
        };
        assert(w@[i as int] == schedule(block@, i as int));
        let next = add32(add32(add32(add32(rotate(a, 5), f), e), k), w[i]);
        e = d;
        d = c;
        c = rotate(b, 30);
        b = a;
        a = next;
        i += 1;
    }
    State { a: add32(s.a, a), b: add32(s.b, b), c: add32(s.c, c), d: add32(s.d, d), e: add32(s.e, e) }
}

/// The SHA-1 digest of `data`.
pub fn sha1(data: &[u8]) -> (r: Vec<u8>)
    ensures
        r@ == sha1_digest(data@),
{
    let padded = pad_message(data);
    let total: usize = padded.len();
    let count: usize = total / 64;
    let mut s = State {
        a: 0x6745_2301,
        b: 0xEFCD_AB89,
        c: 0x98BA_DCFE,
        d: 0x1032_5476,
        e: 0xC3D2_E1F0,
    };
    let mut n: usize = 0;
    while n < count
        invariant
            n <= count,
            count == total / 64,
            total == padded@.len(),
            s == after_blocks(padded@, n as int),
        decreases count - n,
    {
        s = compress(&s, slice_subrange(padded.as_slice(), 64 * n, 64 * (n + 1)));
        n += 1;
    }
    let mut out: Vec<u8> = Vec::new();
    push_big_endian(&mut out, s.a as u128, 4);
    push_big_endian(&mut out, s.b as u128, 4);
    push_big_endian(&mut out, s.c as u128, 4);
    push_big_endian(&mut out, s.d as u128, 4);
    push_big_endian(&mut out, s.e as u128, 4);
    assert(out@ =~= state_bytes(s));
    out
}

/// The SHA-1 digest of `data` in hexadecimal.
pub fn sha1_hex(data: &[u8]) -> (r: String)
    ensures
        r@ == sha1_text(data@),
{
    encode_hex(sha1(data).as_slice())
}

} // verus!
