//! Base64.

use vstd::prelude::*;

use crate::text::chars_of;

verus! {

/// The character of a digit.
pub open spec fn base64_char(d: int) -> char {
    if d < 26 {
        (('A' as int) + d) as char
    } else if d < 52 {
        (('a' as int) + (d - 26)) as char
    } else if d < 62 {
        (('0' as int) + (d - 52)) as char
    } else if d == 62 {
        '+'
    } else {
        '/'
    }
}

/// The digit that a character stands for.
pub open spec fn base64_value(c: char) -> Option<int> {
    if 'A' <= c <= 'Z' {
        Some((c as int) - ('A' as int))
    } else if 'a' <= c <= 'z' {
        Some((c as int) - ('a' as int) + 26)
    } else if '0' <= c <= '9' {
        Some((c as int) - ('0' as int) + 52)
    } else if c == '+' {
        Some(62)
    } else if c == '/' {
        Some(63)
    } else {
        None
    }
}

/// The four characters of up to three bytes; missing ones are marked by `=`.
pub open spec fn base64_group(bytes: Seq<u8>) -> Seq<char> {
    let a = bytes[0] as int;
    let b = if bytes.len() > 1 {
        bytes[1] as int
    } else {
        0
    };
    let c = if bytes.len() > 2 {
        bytes[2] as int
    } else {
        0
    };
    seq![
        base64_char(a / 4),
        base64_char((a % 4) * 16 + b / 16),
        if bytes.len() > 1 {
            base64_char((b % 16) * 4 + c / 64)
        } else {
            '='
        },
        if bytes.len() > 2 {
            base64_char(c % 64)
        } else {
            '='
        },
    ]
}

/// Bytes in Base64.
pub open spec fn base64(data: Seq<u8>) -> Seq<char>
    decreases data.len(),
{
    if data.len() == 0 {
        seq![]
    } else if data.len() <= 3 {
        base64_group(data)
    } else {
        base64_group(data.take(3)) + base64(data.skip(3))
    }
}

/// The bytes of a group of four characters. Only the last group may have missing bytes.
pub open spec fn group_bytes(s: Seq<char>, last: bool) -> Option<Seq<u8>> {
    match (base64_value(s[0]), base64_value(s[1])) {
        (Some(a), Some(b)) => {
            let first = (a * 4 + b / 16) as u8;
            if last && s[2] == '=' && s[3] == '=' {
                Some(seq![first])
            } else {
                match base64_value(s[2]) {
                    Some(c) => {
                        let second = ((b % 16) * 16 + c / 4) as u8;
                        if last && s[3] == '=' {
                            Some(seq![first, second])
                        } else {
                            match base64_value(s[3]) {
                                Some(d) => Some(
                                    seq![first, second, ((c % 4) * 64 + d) as u8],
                                ),
                                None => None,
                            }
                        }
                    },
                    None => None,
                }
            }
        },
        _ => None,
    }
}

/// The bytes that a text in Base64 stands for.
pub open spec fn unbase64(s: Seq<char>) -> Option<Seq<u8>>
    decreases s.len(),
{
    if s.len() == 0 {
        Some(seq![])
    } else if s.len() < 4 {
        None
    } else {
        match (group_bytes(s.take(4), s.len() == 4), unbase64(s.skip(4))) {
            (Some(head), Some(rest)) => Some(head + rest),
            _ => None,
        }
    }
}

fn char_of_digit(d: u8) -> (r: char)
    requires
        d < 64,
    ensures
        r == base64_char(d as int),
{
    if d < 26 {
        (65u8 + d) as char
    } else if d < 52 {
        (97u8 + (d - 26)) as char
    } else if d < 62 {
        (48u8 + (d - 52)) as char
    } else if d == 62 {
        '+'
    } else {
        '/'
    }
}

fn digit_of_char(c: char) -> (r: Option<u8>)
    ensures
        match r {
            Some(d) => base64_value(c) == Some(d as int) && d < 64,
            None => base64_value(c) is None,
        },
{
    if 'A' <= c && c <= 'Z' {
        Some((c as u32 - 65) as u8)
    } else if 'a' <= c && c <= 'z' {
        Some((c as u32 - 97 + 26) as u8)
    } else if '0' <= c && c <= '9' {
        Some((c as u32 - 48 + 52) as u8)
    } else if c == '+' {
        Some(62)
    } else if c == '/' {
        Some(63)
    } else {
        None
    }
}

/// Bytes in Base64.
pub fn base64_encode(data: &[u8]) -> (r: String)
    ensures
        r@ == base64(data@),
{
    let mut out = String::new();
    let mut i: usize = 0;
    assert(data@.skip(0) =~= data@);
    assert(out@ + base64(data@) =~= base64(data@));
    while i < data.len()
        invariant
            i <= data@.len(),
            data@.len() == data.len(),
            base64(data@) == out@ + base64(data@.skip(i as int)),
        decreases data@.len() - i,
    {
        let ghost rest = data@.skip(i as int);
        let ghost was = out@;
        let n: usize = if data.len() - i < 3 {
            data.len() - i
        } else {
            3
        };
        let a = data[i];
        let b = if n > 1 {
            data[i + 1]
        } else {
            0
        };
        let c = if n > 2 {
            data[i + 2]
        } else {
            0
        };
        out.push(char_of_digit(a / 4));
        out.push(char_of_digit((a % 4) * 16 + b / 16));
        out.push(if n > 1 {
            char_of_digit((b % 16) * 4 + c / 64)
        } else {
            '='
        });
        out.push(if n > 2 {
            char_of_digit(c % 64)
        } else {
            '='
        });
        proof {
            let part = rest.take(n as int);
            assert(rest.len() <= 3 ==> part =~= rest);
            assert(part[0] == a);
            assert(n > 1 ==> part[1] == b);
            assert(n > 2 ==> part[2] == c);
            assert(out@ =~= was + base64_group(part));
            assert(rest.skip(n as int) =~= data@.skip(i + n));
            assert(base64(rest) =~= base64_group(part) + base64(rest.skip(n as int)));
            assert(was + base64(rest) =~= out@ + base64(data@.skip(i + n)));
        }
        i += n;
    }
    assert(data@.skip(i as int) =~= seq![]);
    assert(out@ + base64(seq![]) =~= out@);
    out
}

fn read_group(s: &[char], i: usize, last: bool) -> (r: Option<Vec<u8>>)
    requires
        i + 4 <= s@.len(),
    ensures
        match r {
            Some(v) => group_bytes(s@.subrange(i as int, i + 4), last) == Some(v@),
            None => group_bytes(s@.subrange(i as int, i + 4), last) is None,
        },
{
    let ghost g = s@.subrange(i as int, i + 4);
    assert(g[0] == s@[i as int] && g[1] == s@[i + 1] && g[2] == s@[i + 2] && g[3] == s@[i + 3]);
    let a = digit_of_char(s[i]);
    let b = digit_of_char(s[i + 1]);
    match (a, b) {
        (Some(a), Some(b)) => {
            let mut v: Vec<u8> = Vec::new();
            v.push(a * 4 + b / 16);
            if last && s[i + 2] == '=' && s[i + 3] == '=' {
                assert(v@ =~= seq![(a * 4 + b / 16) as u8]);
                return Some(v);
            }
            match digit_of_char(s[i + 2]) {
                Some(c) => {
                    v.push((b % 16) * 16 + c / 4);
                    if last && s[i + 3] == '=' {
                        assert(v@ =~= seq![
                            (a * 4 + b / 16) as u8,
                            ((b % 16) * 16 + c / 4) as u8,
                        ]);
                        return Some(v);
                    }
                    match digit_of_char(s[i + 3]) {
                        Some(d) => {
                            v.push((c % 4) * 64 + d);
                            assert(v@ =~= seq![
                                (a * 4 + b / 16) as u8,
                                ((b % 16) * 16 + c / 4) as u8,
                                ((c % 4) * 64 + d) as u8,
                            ]);
                            Some(v)
                        },
                        None => None,
                    }
                },
                None => None,
            }
        },
        _ => None,
    }
}

proof fn lemma_unbase64_step(s: Seq<char>, i: int, out: Seq<u8>)
    requires
        0 <= i,
        i + 4 <= s.len(),
    ensures
        unbase64(s.skip(i)) == match (
            group_bytes(s.subrange(i, i + 4), i + 4 == s.len()),
            unbase64(s.skip(i + 4)),
        ) {
            (Some(head), Some(rest)) => Some(head + rest),
            _ => None,
        },
{
    assert(s.skip(i).take(4) =~= s.subrange(i, i + 4));
    assert(s.skip(i).skip(4) =~= s.skip(i + 4));
}

/// What was read, and the rest where it can be read.
pub open spec fn read_on(out: Seq<u8>, rest: Option<Seq<u8>>) -> Option<Seq<u8>> {
    match rest {
        Some(more) => Some(out + more),
        None => None,
    }
}

/// The bytes that a text in Base64 stands for.
pub fn base64_decode(s: &str) -> (r: Option<Vec<u8>>)
    ensures
        match r {
            Some(v) => unbase64(s@) == Some(v@),
            None => unbase64(s@) is None,
        },
{
    let cs = chars_of(s);
    let mut out: Vec<u8> = Vec::new();
    let mut i: usize = 0;
    assert(s@.skip(0) =~= s@);
    assert(unbase64(s@) == read_on(out@, unbase64(s@.skip(0)))) by {
        if let Some(v) = unbase64(s@) {
            assert(out@ + v =~= v);
        }
    }
    while i < cs.len()
        invariant
            i <= cs@.len(),
            cs@ == s@,
            unbase64(s@) == read_on(out@, unbase64(s@.skip(i as int))),
        decreases cs@.len() - i,
    {
        if cs.len() - i < 4 {
            return None;
        }
        proof {
            lemma_unbase64_step(s@, i as int, out@);
        }
        match read_group(cs.as_slice(), i, cs.len() - i == 4) {
            Some(mut v) => {
                let ghost was = out@;
                let ghost head = v@;
                out.append(&mut v);
                assert(out@ =~= was + head);
                assert(unbase64(s@) == read_on(out@, unbase64(s@.skip(i + 4)))) by {
                    if let Some(rest) = unbase64(s@.skip(i + 4)) {
                        assert(was + (head + rest) =~= out@ + rest);
                    }
                }
            },
            None => return None,
        }
        i += 4;
    }
    assert(s@.skip(i as int) =~= seq![]);
    assert(out@ + Seq::<u8>::empty() =~= out@);
    Some(out)
}

proof fn lemma_base64_digit(d: int)
    requires
        0 <= d < 64,
    ensures
        base64_value(base64_char(d)) == Some(d),
        base64_char(d) != '=',
{
}

proof fn lemma_group_round_trip(bytes: Seq<u8>, last: bool)
    requires
        0 < bytes.len() <= 3,
        last || bytes.len() == 3,
    ensures
        group_bytes(base64_group(bytes), last) == Some(bytes),
{
    let a = bytes[0] as int;
    let b = if bytes.len() > 1 {
        bytes[1] as int
    } else {
        0
    };
    let c = if bytes.len() > 2 {
        bytes[2] as int
    } else {
        0
    };
    lemma_base64_digit(a / 4);
    lemma_base64_digit((a % 4) * 16 + b / 16);
    lemma_base64_digit((b % 16) * 4 + c / 64);
    lemma_base64_digit(c % 64);
    assert((a / 4) * 4 + ((a % 4) * 16 + b / 16) / 16 == a);
    assert((((a % 4) * 16 + b / 16) % 16) * 16 + ((b % 16) * 4 + c / 64) / 4 == b);
    assert((((b % 16) * 4 + c / 64) % 4) * 64 + c % 64 == c);
    if bytes.len() == 1 {
        assert(seq![a as u8] =~= bytes);
    } else if bytes.len() == 2 {
        assert(seq![a as u8, b as u8] =~= bytes);
    } else {
        assert(seq![a as u8, b as u8, c as u8] =~= bytes);
    }
}

/// What is written in Base64 reads back as it was.
pub proof fn lemma_base64_round_trip(data: Seq<u8>)
    ensures
        unbase64(base64(data)) == Some(data),
    decreases data.len(),
{
    if data.len() == 0 {
        assert(data =~= seq![]);
    } else if data.len() <= 3 {
        let g = base64_group(data);
        lemma_group_round_trip(data, true);
        assert(g.take(4) =~= g);
        assert(g.skip(4) =~= seq![]);
        assert(unbase64(g.skip(4)) == Some(Seq::<u8>::empty()));
        assert(data + Seq::<u8>::empty() =~= data);
        assert(unbase64(g) == Some(data + Seq::<u8>::empty()));
    } else {
        let g = base64_group(data.take(3));
        let rest = base64(data.skip(3));
        lemma_group_round_trip(data.take(3), false);
        lemma_base64_round_trip(data.skip(3));
        let whole = g + rest;
        assert(whole.take(4) =~= g);
        assert(whole.skip(4) =~= rest);
        assert(rest.len() > 0) by {
            assert(data.skip(3).len() > 0);
        }
        assert(data.take(3) + data.skip(3) =~= data);
        assert(unbase64(whole) == Some(data.take(3) + data.skip(3)));
    }
}

} // verus!
