//! Numbers written as text, and text padded to a width.

use vstd::prelude::*;

use crate::text::chars_of;

verus! {

/// The digit character of `d` in bases up to ten.
pub open spec fn digit(d: nat) -> char {
    (('0' as nat) + d) as char
}

/// The value of a decimal digit.
pub open spec fn digit_value(c: char) -> nat {
    ((c as int) - ('0' as int)) as nat
}

/// Whether `c` is an ASCII decimal digit.
pub open spec fn is_digit(c: char) -> bool {
    '0' <= c <= '9'
}

/// `n` in base `base`, without leading zeros.
pub open spec fn in_base(n: nat, base: nat) -> Seq<char>
    decreases n,
{
    if base < 2 || n < base {
        seq![digit(n)]
    } else {
        proof {
            assert(n / base < n) by (nonlinear_arith)
                requires
                    n >= base,
                    base >= 2,
            ;
        }
        in_base(n / base, base).push(digit(n % base))
    }
}

/// `n` in decimal.
pub open spec fn decimal(n: nat) -> Seq<char> {
    in_base(n, 10)
}

/// `n` in decimal, with a minus sign where it is negative.
pub open spec fn signed_decimal(n: int) -> Seq<char> {
    if n < 0 {
        seq!['-'] + decimal((-n) as nat)
    } else {
        decimal(n as nat)
    }
}

fn digit_char(d: u64) -> (c: char)
    requires
        d < 10,
    ensures
        c == digit(d as nat),
{
    (48u8 + (d as u8)) as char
}

/// `n` in base `base`.
pub fn format_base(n: u64, base: u64) -> (r: String)
    requires
        2 <= base <= 10,
    ensures
        r@ == in_base(n as nat, base as nat),
    decreases n,
{
    if n < base {
        let mut out = String::new();
        out.push(digit_char(n));
        assert(out@ == seq![digit(n as nat)]);
        out
    } else {
        assert(n / base < n) by (nonlinear_arith)
            requires
                n >= base,
                base >= 2,
        ;
        let mut out = format_base(n / base, base);
        out.push(digit_char(n % base));
        out
    }
}

/// `n` in decimal.
pub fn format_u64(n: u64) -> (r: String)
    ensures
        r@ == decimal(n as nat),
{
    format_base(n, 10)
}

/// `n` in decimal.
pub fn format_usize(n: usize) -> (r: String)
    ensures
        r@ == decimal(n as nat),
{
    format_base(n as u64, 10)
}

/// `n` in decimal.
pub fn format_u128(n: u128) -> (r: String)
    ensures
        r@ == decimal(n as nat),
    decreases n,
{
    if n < 10 {
        let mut out = String::new();
        out.push(digit_char(n as u64));
        assert(out@ == seq![digit(n as nat)]);
        out
    } else {
        let mut out = format_u128(n / 10);
        out.push(digit_char((n % 10) as u64));
        out
    }
}

/// `n` in decimal, with a minus sign where it is negative.
pub fn format_i64(n: i64) -> (r: String)
    ensures
        r@ == signed_decimal(n as int),
{
    if n < 0 {
        let mut out = String::new();
        out.push('-');
        let magnitude: u64 = if n == i64::MIN {
            0x8000_0000_0000_0000u64
        } else {
            (-n) as u64
        };
        let rest = format_base(magnitude, 10);
        out.append(rest.as_str());
        assert(out@ == seq!['-'] + rest@);
        out
    } else {
        format_base(n as u64, 10)
    }
}

/// `n` copies of `c`.
pub open spec fn repeated(c: char, n: int) -> Seq<char> {
    Seq::new(if n > 0 { n as nat } else { 0 }, |i: int| c)
}

/// `n` copies of `c`.
pub fn repeat(c: char, n: usize) -> (r: String)
    ensures
        r@ == repeated(c, n as int),
{
    let mut out = String::new();
    let mut i: usize = 0;
    while i < n
        invariant
            i <= n,
            out@ == repeated(c, i as int),
        decreases n - i,
    {
        out.push(c);
        i += 1;
    }
    out
}

/// `s` with as many `c` in front as it lacks to be `width` characters long.
pub open spec fn pad_left(s: Seq<char>, c: char, width: int) -> Seq<char> {
    repeated(c, width - s.len()) + s
}

/// `s` with as many `c` behind as it lacks to be `width` characters long.
pub open spec fn pad_right(s: Seq<char>, c: char, width: int) -> Seq<char> {
    s + repeated(c, width - s.len())
}

/// The number of characters of `s`.
pub fn char_count(s: &str) -> (r: usize)
    ensures
        r == s@.len(),
{
    chars_of(s).len()
}

/// `s` filled up in front with `c` to `width` characters.
pub fn padded_left(s: &str, c: char, width: usize) -> (r: String)
    ensures
        r@ == pad_left(s@, c, width as int),
{
    let n = char_count(s);
    let mut out = repeat(c, if n < width { width - n } else { 0 });
    assert(out@ == repeated(c, width - s@.len()));
    out.append(s);
    out
}

/// `s` filled up behind with `c` to `width` characters.
pub fn padded_right(s: &str, c: char, width: usize) -> (r: String)
    ensures
        r@ == pad_right(s@, c, width as int),
{
    let n = char_count(s);
    let fill = repeat(c, if n < width { width - n } else { 0 });
    assert(fill@ == repeated(c, width - s@.len()));
    let mut out = s.to_string();
    out.append(fill.as_str());
    out
}

/// The value of `s` read as decimal digits.
pub open spec fn digits_value(s: Seq<char>) -> nat
    decreases s.len(),
{
    if s.len() == 0 {
        0
    } else {
        digits_value(s.drop_last()) * 10 + digit_value(s.last())
    }
}

/// Whether `s` holds one digit or more and nothing else.
pub open spec fn all_digits(s: Seq<char>) -> bool {
    s.len() > 0 && forall|i: int| 0 <= i < s.len() ==> is_digit(#[trigger] s[i])
}

/// `s` without a leading plus sign.
pub open spec fn without_plus(s: Seq<char>) -> Seq<char> {
    if s.len() > 0 && s[0] == '+' {
        s.subrange(1, s.len() as int)
    } else {
        s
    }
}

/// `s` read as an unsigned number of at most `max`.
pub open spec fn read_unsigned(s: Seq<char>, max: nat) -> Option<nat> {
    let digits = without_plus(s);
    if all_digits(digits) && digits_value(digits) <= max {
        Some(digits_value(digits))
    } else {
        None
    }
}

/// `s` read as a number between `-limit` and `limit - 1`.
pub open spec fn read_signed(s: Seq<char>, limit: nat) -> Option<int> {
    if s.len() > 0 && s[0] == '-' {
        let digits = s.subrange(1, s.len() as int);
        if all_digits(digits) && digits_value(digits) <= limit {
            Some(-(digits_value(digits) as int))
        } else {
            None
        }
    } else {
        match read_unsigned(s, (limit - 1) as nat) {
            Some(n) => Some(n as int),
            None => None,
        }
    }
}

/// Appending digits never makes the value smaller.
proof fn lemma_digits_grow(s: Seq<char>, n: int)
    requires
        0 <= n <= s.len(),
        all_digits(s),
    ensures
        digits_value(s.take(n)) <= digits_value(s),
    decreases s.len() - n,
{
    if n < s.len() {
        assert(s.take(n + 1).drop_last() == s.take(n));
        lemma_digits_grow(s, n + 1);
    } else {
        assert(s.take(n) == s);
    }
}

/// The value of the digits `cs[from..]`, where there is one and it is at most `max`.
fn read_digits(cs: &[char], from: usize, max: u64) -> (r: Option<u64>)
    requires
        from <= cs@.len(),
    ensures
        ({
            let digits = cs@.subrange(from as int, cs@.len() as int);
            match r {
                Some(v) => all_digits(digits) && digits_value(digits) == v && v <= max,
                None => !(all_digits(digits) && digits_value(digits) <= max),
            }
        }),
{
    let ghost digits = cs@.subrange(from as int, cs@.len() as int);
    if from == cs.len() {
        return None;
    }
    let mut v: u64 = 0;
    let mut i: usize = from;
    while i < cs.len()
        invariant
            from <= i <= cs.len(),
            from < cs.len(),
            digits == cs@.subrange(from as int, cs@.len() as int),
            v <= max,
            v == digits_value(digits.take(i - from)),
            forall|j: int| 0 <= j < i - from ==> is_digit(#[trigger] digits[j]),
        decreases cs.len() - i,
    {
        let c = cs[i];
        assert(digits[i - from] == c);
        if c < '0' || c > '9' {
            return None;
        }
        let d: u64 = (c as u64) - 48;
        assert(digits.take(i - from + 1).drop_last() == digits.take(i - from));
        assert(digits_value(digits.take(i - from + 1)) == v * 10 + d);
        let wide: u128 = (v as u128) * 10 + (d as u128);
        if wide > max as u128 {
            proof {
                if all_digits(digits) {
                    lemma_digits_grow(digits, i - from + 1);
                }
            }
            return None;
        }
        v = wide as u64;
        i += 1;
    }
    assert(digits.take(i - from) == digits);
    Some(v)
}

/// `s` read as an unsigned number of at most `max`.
pub fn parse_unsigned(s: &str, max: u64) -> (r: Option<u64>)
    ensures
        match r {
            Some(v) => read_unsigned(s@, max as nat) == Some(v as nat),
            None => read_unsigned(s@, max as nat) is None,
        },
{
    let cs = chars_of(s);
    if cs.len() > 0 && cs[0] == '+' {
        read_digits(cs.as_slice(), 1, max)
    } else {
        assert(cs@.subrange(0, cs@.len() as int) == s@);
        read_digits(cs.as_slice(), 0, max)
    }
}

/// `s` read as a `u64`.
pub fn parse_u64(s: &str) -> (r: Option<u64>)
    ensures
        match r {
            Some(v) => read_unsigned(s@, u64::MAX as nat) == Some(v as nat),
            None => read_unsigned(s@, u64::MAX as nat) is None,
        },
{
    parse_unsigned(s, u64::MAX)
}

/// `s` read as a `usize`.
pub fn parse_usize(s: &str) -> (r: Option<usize>)
    ensures
        match r {
            Some(v) => read_unsigned(s@, usize::MAX as nat) == Some(v as nat),
            None => read_unsigned(s@, usize::MAX as nat) is None,
        },
{
    match parse_unsigned(s, usize::MAX as u64) {
        Some(v) => Some(v as usize),
        None => None,
    }
}

/// `s` read as an `i64`.
pub fn parse_i64(s: &str) -> (r: Option<i64>)
    ensures
        match r {
            Some(v) => read_signed(s@, 0x8000_0000_0000_0000) == Some(v as int),
            None => read_signed(s@, 0x8000_0000_0000_0000) is None,
        },
{
    let cs = chars_of(s);
    if cs.len() > 0 && cs[0] == '-' {
        match read_digits(cs.as_slice(), 1, 0x8000_0000_0000_0000) {
            Some(v) => {
                if v == 0x8000_0000_0000_0000 {
                    Some(i64::MIN)
                } else {
                    Some(-(v as i64))
                }
            },
            None => None,
        }
    } else {
        match parse_unsigned(s, 0x7fff_ffff_ffff_ffff) {
            Some(v) => Some(v as i64),
            None => None,
        }
    }
}

/// Decimal text holds digits only, and its value is the number written.
pub proof fn lemma_decimal_digits(n: nat)
    ensures
        all_digits(decimal(n)),
        digits_value(decimal(n)) == n,
    decreases n,
{
    if n < 10 {
        assert(seq![digit(n)].drop_last() == Seq::<char>::empty());
        assert(digits_value(Seq::<char>::empty()) == 0);
        assert(seq![digit(n)].last() == digit(n));
        assert(digit_value(digit(n)) == n);
    } else {
        lemma_decimal_digits(n / 10);
        let head = in_base(n / 10, 10);
        let whole = head.push(digit(n % 10));
        assert(whole.drop_last() == head);
        assert(digit_value(digit(n % 10)) == n % 10);
        assert forall|i: int| 0 <= i < whole.len() implies is_digit(#[trigger] whole[i]) by {
            if i < head.len() {
                assert(whole[i] == head[i]);
            }
        }
    }
}

/// Reading back the decimal text of a number gives the number, up to the limit of the reader.
pub proof fn lemma_unsigned_round_trip(n: nat, max: nat)
    ensures
        read_unsigned(decimal(n), max) == (if n <= max { Some(n) } else { None }),
{
    lemma_decimal_digits(n);
    assert(is_digit(decimal(n)[0]));
}

/// Reading back the text of a signed number gives the number, within the limits of the reader.
pub proof fn lemma_signed_round_trip(n: int, limit: nat)
    requires
        -limit <= n < limit,
    ensures
        read_signed(signed_decimal(n), limit) == Some(n),
{
    if n < 0 {
        let digits = decimal((-n) as nat);
        lemma_decimal_digits((-n) as nat);
        assert((seq!['-'] + digits).subrange(1, 1 + digits.len() as int) == digits);
    } else {
        lemma_decimal_digits(n as nat);
        assert(is_digit(decimal(n as nat)[0]));
        lemma_unsigned_round_trip(n as nat, (limit - 1) as nat);
    }
}

} // verus!
