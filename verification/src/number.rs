//! Unsigned integers in text: parsing in a given radix, as `from_str_radix`
//! and `str::parse` do, and decimal formatting.

use vstd::prelude::*;

verus! {

/// Why a string is not an unsigned integer; the kinds of
/// `std::num::ParseIntError` that unsigned parsing can give.
#[derive(Clone, Copy, PartialEq, Eq, Structural, Debug)]
pub enum IntErrorKind {
    /// The string is empty.
    Empty,
    /// A character is not a digit of the radix, or the string is a lone sign.
    InvalidDigit,
    /// The value is larger than the target type holds.
    PosOverflow,
}

impl IntErrorKind {
    /// The text by which the standard library describes this error.
    pub fn message(&self) -> (r: &'static str)
        ensures
            r@ == spec_error_message(*self),
    {
        match self {
            IntErrorKind::Empty => "cannot parse integer from empty string",
            IntErrorKind::InvalidDigit => "invalid digit found in string",
            IntErrorKind::PosOverflow => "number too large to fit in target type",
        }
    }
}

pub open spec fn spec_error_message(k: IntErrorKind) -> Seq<char> {
    match k {
        IntErrorKind::Empty => "cannot parse integer from empty string"@,
        IntErrorKind::InvalidDigit => "invalid digit found in string"@,
        IntErrorKind::PosOverflow => "number too large to fit in target type"@,
    }
}

/// The value of `c` as a digit in `radix`, as `char::to_digit` gives it.
pub open spec fn digit_value(c: char, radix: nat) -> Option<nat> {
    let v: int = if '0' <= c && c <= '9' {
        (c as int) - 48
    } else if 'a' <= c && c <= 'z' {
        (c as int) - 87
    } else if 'A' <= c && c <= 'Z' {
        (c as int) - 55
    } else {
        radix as int
    };
    if v < radix {
        Some(v as nat)
    } else {
        None
    }
}

/// Reads the digits of `s` from the left onto `acc`, failing at the first
/// character that is not a digit or at the first step past `max`.
pub open spec fn scan_digits(acc: nat, s: Seq<char>, radix: nat, max: nat) -> Result<
    nat,
    IntErrorKind,
>
    decreases s.len(),
{
    if s.len() == 0 {
        Ok(acc)
    } else {
        match digit_value(s[0], radix) {
            None => Err(IntErrorKind::InvalidDigit),
            Some(d) => if acc * radix + d > max {
                Err(IntErrorKind::PosOverflow)
            } else {
                scan_digits(acc * radix + d, s.drop_first(), radix, max)
            },
        }
    }
}

/// What `from_str_radix` of an unsigned type whose largest value is `max`
/// gives back: an optional `+`, then at least one digit.
pub open spec fn spec_parse_unsigned(s: Seq<char>, radix: nat, max: nat) -> Result<
    nat,
    IntErrorKind,
> {
    if s.len() == 0 {
        Err(IntErrorKind::Empty)
    } else if s.len() == 1 && (s[0] == '+' || s[0] == '-') {
        Err(IntErrorKind::InvalidDigit)
    } else if s[0] == '+' {
        scan_digits(0, s.drop_first(), radix, max)
    } else {
        scan_digits(0, s, radix, max)
    }
}

/// What `str::parse::<u128>` gives back.
pub open spec fn spec_parse_u128(s: Seq<char>) -> Result<nat, IntErrorKind> {
    spec_parse_unsigned(s, 10, u128::MAX as nat)
}

fn digit_of(c: char, radix: u32) -> (r: Option<u32>)
    requires
        2 <= radix <= 36,
    ensures
        match r {
            Some(d) => digit_value(c, radix as nat) == Some(d as nat),
            None => digit_value(c, radix as nat) is None,
        },
{
    let v: u32 = if '0' <= c && c <= '9' {
        (c as u32) - 48
    } else if 'a' <= c && c <= 'z' {
        (c as u32) - 87
    } else if 'A' <= c && c <= 'Z' {
        (c as u32) - 55
    } else {
        radix
    };
    if v < radix {
        Some(v)
    } else {
        None
    }
}

/// Parses `v[lo..hi]` as an unsigned integer in `radix` that must not
/// exceed `max`.
pub(crate) fn parse_unsigned_in(v: &Vec<char>, lo: usize, hi: usize, radix: u32, max: u128) -> (r:
    Result<u128, IntErrorKind>)
    requires
        lo <= hi <= v.len(),
        2 <= radix <= 36,
    ensures
        match r {
            Ok(x) => spec_parse_unsigned(v@.subrange(lo as int, hi as int), radix as nat, max as nat)
                == Ok::<nat, IntErrorKind>(x as nat),
            Err(e) => spec_parse_unsigned(
                v@.subrange(lo as int, hi as int),
                radix as nat,
                max as nat,
            ) == Err::<nat, IntErrorKind>(e),
        },
{
    let ghost s = v@.subrange(lo as int, hi as int);
    if hi == lo {
        return Err(IntErrorKind::Empty);
    }
    if hi - lo == 1 && (v[lo] == '+' || v[lo] == '-') {
        return Err(IntErrorKind::InvalidDigit);
    }
    let start = if v[lo] == '+' {
        lo + 1
    } else {
        lo
    };
    let ghost digits = v@.subrange(start as int, hi as int);
    proof {
        if start == lo + 1 {
            assert(s.drop_first() =~= digits);
        } else {
            assert(s =~= digits);
        }
    }
    let mut acc: u128 = 0;
    let mut k = start;
    while k < hi
        invariant
            start <= k <= hi <= v.len(),
            2 <= radix <= 36,
            s == v@.subrange(lo as int, hi as int),
            acc <= max,
            spec_parse_unsigned(s, radix as nat, max as nat) == scan_digits(
                acc as nat,
                v@.subrange(k as int, hi as int),
                radix as nat,
                max as nat,
            ),
        decreases hi - k,
    {
        let ghost rest = v@.subrange(k as int, hi as int);
        assert(rest[0] == v@[k as int]);
        assert(rest.drop_first() =~= v@.subrange(k + 1, hi as int));
        match digit_of(v[k], radix) {
            None => {
                assert(scan_digits(acc as nat, rest, radix as nat, max as nat) == Err::<
                    nat,
                    IntErrorKind,
                >(IntErrorKind::InvalidDigit));
                return Err(IntErrorKind::InvalidDigit);
            },
            Some(d) => {
                let next = match acc.checked_mul(radix as u128) {
                    Some(m) => m.checked_add(d as u128),
                    None => None,
                };
                match next {
                    Some(n) => {
                        if n > max {
                            assert(scan_digits(acc as nat, rest, radix as nat, max as nat)
                                == Err::<nat, IntErrorKind>(IntErrorKind::PosOverflow));
                            return Err(IntErrorKind::PosOverflow);
                        }
                        acc = n;
                    },
                    None => {
                        assert(acc * radix + d > u128::MAX) by (nonlinear_arith)
                            requires
                                acc * radix > u128::MAX || acc * radix + d > u128::MAX,
                                d >= 0,
                        ;
                        return Err(IntErrorKind::PosOverflow);
                    },
                }
            },
        }
        k = k + 1;
    }
    Ok(acc)
}

/// What `str::parse::<u128>` gives back for `s`.
pub fn parse_decimal_u128(s: &str) -> (r: Result<u128, IntErrorKind>)
    ensures
        match r {
            Ok(x) => spec_parse_u128(s@) == Ok::<nat, IntErrorKind>(x as nat),
            Err(e) => spec_parse_u128(s@) == Err::<nat, IntErrorKind>(e),
        },
{
    let v = crate::text::chars_of(s);
    assert(v@.subrange(0, v@.len() as int) =~= s@);
    parse_unsigned_in(&v, 0, v.len(), 10, u128::MAX)
}

/// `s` without every leading `0x`, as `str::trim_start_matches("0x")`
/// leaves it.
pub open spec fn strip_hex_prefixes(s: Seq<char>) -> Seq<char>
    decreases s.len(),
{
    if s.len() >= 2 && s[0] == '0' && s[1] == 'x' {
        strip_hex_prefixes(s.skip(2))
    } else {
        s
    }
}

/// The block height that a JSON-RPC `eth_blockNumber` result holds: the
/// hexadecimal numeral after its leading `0x`s, as a `u64`.
pub open spec fn spec_block_height(s: Seq<char>) -> Result<nat, IntErrorKind> {
    spec_parse_unsigned(strip_hex_prefixes(s), 16, u64::MAX as nat)
}

/// Reads a block height written in hexadecimal with a `0x` prefix, as
/// `u64::from_str_radix(s.trim_start_matches("0x"), 16)` does.
pub fn parse_block_height(s: &str) -> (r: Result<u64, IntErrorKind>)
    ensures
        match r {
            Ok(x) => spec_block_height(s@) == Ok::<nat, IntErrorKind>(x as nat),
            Err(e) => spec_block_height(s@) == Err::<nat, IntErrorKind>(e),
        },
{
    let v = crate::text::chars_of(s);
    let n = v.len();
    let mut i: usize = 0;
    assert(v@.subrange(0, n as int) =~= s@);
    while n - i >= 2 && v[i] == '0' && v[i + 1] == 'x'
        invariant
            i <= n == v.len(),
            strip_hex_prefixes(s@) == strip_hex_prefixes(v@.subrange(i as int, n as int)),
        decreases n - i,
    {
        assert(v@.subrange(i as int, n as int).skip(2) =~= v@.subrange(i + 2, n as int));
        i = i + 2;
    }
    let r = parse_unsigned_in(&v, i, n, 16, u64::MAX as u128);
    match r {
        Ok(x) => {
            assert(x <= u64::MAX) by {
                lemma_scan_bound(
                    v@.subrange(i as int, n as int),
                    16,
                    u64::MAX as nat,
                    x as nat,
                );
            }
            Ok(x as u64)
        },
        Err(e) => Err(e),
    }
}

pub proof fn lemma_scan_le_max(acc: nat, s: Seq<char>, radix: nat, max: nat, x: nat)
    requires
        acc <= max,
        scan_digits(acc, s, radix, max) == Ok::<nat, IntErrorKind>(x),
    ensures
        x <= max,
    decreases s.len(),
{
    if s.len() > 0 {
        let d = digit_value(s[0], radix)->0;
        lemma_scan_le_max(acc * radix + d, s.drop_first(), radix, max, x);
    }
}

pub proof fn lemma_scan_bound(s: Seq<char>, radix: nat, max: nat, x: nat)
    requires
        spec_parse_unsigned(s, radix, max) == Ok::<nat, IntErrorKind>(x),
    ensures
        x <= max,
{
    if s.len() > 0 && s[0] == '+' {
        lemma_scan_le_max(0, s.drop_first(), radix, max, x);
    } else {
        lemma_scan_le_max(0, s, radix, max, x);
    }
}

/// The character of a decimal digit.
pub open spec fn digit_char(d: nat) -> char {
    ((d + 48) as u32) as char
}

/// The decimal numeral of `n`, without sign or leading zeros.
pub open spec fn decimal(n: nat) -> Seq<char>
    decreases n,
{
    if n < 10 {
        seq![digit_char(n)]
    } else {
        decimal(n / 10).push(digit_char(n % 10))
    }
}

fn push_decimal(out: &mut String, n: u128)
    ensures
        final(out)@ == old(out)@ + decimal(n as nat),
    decreases n,
{
    if n >= 10 {
        push_decimal(out, n / 10);
    }
    let d: u8 = (n % 10) as u8;
    let c: char = (d + 48) as char;
    assert(c == digit_char((n % 10) as nat));
    out.push(c);
}

/// The decimal numeral of `n`, as `n.to_string()` writes it.
pub fn decimal_string(n: u128) -> (r: String)
    ensures
        r@ == decimal(n as nat),
{
    let mut r = String::new();
    push_decimal(&mut r, n);
    assert(r@ =~= decimal(n as nat));
    r
}

pub proof fn lemma_digit_char(d: nat)
    requires
        d < 10,
    ensures
        digit_value(digit_char(d), 10) == Some(d),
        digit_char(d) != '+' && digit_char(d) != '-' && digit_char(d) != ',',
{
    assert(((d + 48) as u32) as char as int == d + 48);
}

pub proof fn lemma_scan_push(acc: nat, s: Seq<char>, c: char, radix: nat, max: nat, v: nat, d: nat)
    requires
        scan_digits(acc, s, radix, max) == Ok::<nat, IntErrorKind>(v),
        digit_value(c, radix) == Some(d),
    ensures
        scan_digits(acc, s.push(c), radix, max) == (if v * radix + d > max {
            Err::<nat, IntErrorKind>(IntErrorKind::PosOverflow)
        } else {
            Ok(v * radix + d)
        }),
    decreases s.len(),
{
    let t = s.push(c);
    if s.len() == 0 {
        assert(v == acc);
        assert(t[0] == c);
        assert(t.drop_first() =~= Seq::<char>::empty());
        assert(scan_digits(acc * radix + d, Seq::<char>::empty(), radix, max) == Ok::<
            nat,
            IntErrorKind,
        >(acc * radix + d));
    } else {
        let d0 = digit_value(s[0], radix)->0;
        assert(digit_value(s[0], radix) is Some);
        assert(acc * radix + d0 <= max);
        assert(scan_digits(acc, s, radix, max) == scan_digits(
            acc * radix + d0,
            s.drop_first(),
            radix,
            max,
        ));
        assert(t[0] == s[0]);
        assert(t.drop_first() =~= s.drop_first().push(c));
        lemma_scan_push(acc * radix + d0, s.drop_first(), c, radix, max, v, d);
    }
}

pub proof fn lemma_decimal_digits(n: nat)
    ensures
        decimal(n).len() >= 1,
        forall|i: int|
            0 <= i < decimal(n).len() ==> {
                &&& #[trigger] decimal(n)[i] != ','
                &&& decimal(n)[i] != '+'
                &&& decimal(n)[i] != '-'
                &&& digit_value(decimal(n)[i], 10) is Some
            },
    decreases n,
{
    if n < 10 {
        lemma_digit_char(n);
    } else {
        lemma_decimal_digits(n / 10);
        lemma_digit_char(n % 10);
    }
}

/// Reading back a decimal numeral gives the number: parsing inverts
/// `decimal_string` for every `u128`.
pub proof fn lemma_parse_decimal(n: nat, max: nat)
    requires
        n <= max,
    ensures
        scan_digits(0, decimal(n), 10, max) == Ok::<nat, IntErrorKind>(n),
        spec_parse_unsigned(decimal(n), 10, max) == Ok::<nat, IntErrorKind>(n),
    decreases n,
{
    lemma_decimal_digits(n);
    if n < 10 {
        lemma_digit_char(n);
        let s = decimal(n);
        assert(s[0] == digit_char(n));
        assert(s.drop_first() =~= Seq::<char>::empty());
        assert(scan_digits(n, Seq::<char>::empty(), 10, max) == Ok::<nat, IntErrorKind>(n));
        assert(scan_digits(0, s, 10, max) == scan_digits(n, s.drop_first(), 10, max));
    } else {
        lemma_parse_decimal(n / 10, max);
        lemma_digit_char(n % 10);
        lemma_scan_push(0, decimal(n / 10), digit_char(n % 10), 10, max, n / 10, n % 10);
        assert((n / 10) * 10 + n % 10 == n) by (nonlinear_arith);
    }
    assert(decimal(n)[0] != '+');
    assert(decimal(n)[0] != '-');
}

/// Reading back a decimal numeral gives the number.
pub proof fn law_parse_u128_of_decimal(n: u128)
    ensures
        spec_parse_u128(decimal(n as nat)) == Ok::<nat, IntErrorKind>(n as nat),
{
    lemma_parse_decimal(n as nat, u128::MAX as nat);
}

} // verus!
