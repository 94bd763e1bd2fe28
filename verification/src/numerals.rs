//! Numbers as text: decimal and hexadecimal numerals.
use vstd::prelude::*;

verus! {

/// `a + b`, held at the largest `u64`.
pub open spec fn sat_add(a: u64, b: u64) -> u64 {
    if a + b > u64::MAX {
        u64::MAX
    } else {
        (a + b) as u64
    }
}

/// `a - b`, held at zero.
pub open spec fn sat_sub(a: int, b: int) -> int {
    if a < b {
        0
    } else {
        a - b
    }
}

/// The value of a digit of a numeral, up to base thirty-six.
pub open spec fn digit_value(c: char) -> nat {
    if '0' <= c <= '9' {
        (c as u32 - '0' as u32) as nat
    } else if 'a' <= c <= 'z' {
        (c as u32 - 'a' as u32 + 10) as nat
    } else if 'A' <= c <= 'Z' {
        (c as u32 - 'A' as u32 + 10) as nat
    } else {
        36
    }
}

/// The digit of a value below sixteen, in lower case.
pub open spec fn digit_char(d: nat) -> char {
    if d < 10 {
        ('0' as u32 + d) as char
    } else {
        ('a' as u32 + d - 10) as char
    }
}

/// Whether every character of `s` is a digit in base `radix`.
pub open spec fn all_digits(s: Seq<char>, radix: nat) -> bool {
    forall|i: int| 0 <= i < s.len() ==> digit_value(#[trigger] s[i]) < radix
}

/// The number that the digits of `s` write in base `radix`.
pub open spec fn digits_value(s: Seq<char>, radix: nat) -> nat
    decreases s.len(),
{
    if s.len() == 0 {
        0
    } else {
        digits_value(s.drop_last(), radix) * radix + digit_value(s.last())
    }
}

/// `s` without one leading plus sign.
pub open spec fn strip_plus(s: Seq<char>) -> Seq<char> {
    if s.len() > 0 && s[0] == '+' {
        s.skip(1)
    } else {
        s
    }
}

/// The number at most `max` that `s` writes in base `radix`: digits, at least
/// one, after an optional plus sign.
pub open spec fn parse_number(s: Seq<char>, radix: nat, max: nat) -> Option<nat> {
    let digits = strip_plus(s);
    if digits.len() > 0 && all_digits(digits, radix) && digits_value(digits, radix) <= max {
        Some(digits_value(digits, radix))
    } else {
        None
    }
}

/// The numeral of `n` in base `radix`, without leading zeros.
pub open spec fn numeral(n: nat, radix: nat) -> Seq<char>
    decreases n,
    via numeral_decreases
{
    if radix < 2 || n < radix {
        seq![digit_char(n)]
    } else {
        numeral(n / radix, radix).push(digit_char(n % radix))
    }
}

#[via_fn]
proof fn numeral_decreases(n: nat, radix: nat) {
    if radix >= 2 && n >= radix {
        assert(n / radix < n) by (nonlinear_arith)
            requires
                radix >= 2,
                n >= radix,
        ;
    }
}

/// The decimal numeral of `n`.
pub open spec fn decimal(n: nat) -> Seq<char> {
    numeral(n, 10)
}

/// The sixteen hexadecimal digits of `n`, with leading zeros.
pub open spec fn hex16(n: u64) -> Seq<char> {
    zeros((16 - numeral(n as nat, 16).len()) as nat) + numeral(n as nat, 16)
}

/// `n` zero digits.
pub open spec fn zeros(n: nat) -> Seq<char> {
    Seq::new(n, |i: int| '0')
}

proof fn lemma_prefix_value(s: Seq<char>, radix: nat, i: int)
    requires
        0 <= i <= s.len(),
        radix >= 2,
    ensures
        digits_value(s.take(i), radix) <= digits_value(s, radix),
    decreases s.len() - i,
{
    if i == s.len() {
        assert(s.take(i) =~= s);
    } else {
        lemma_prefix_value(s, radix, i + 1);
        assert(s.take(i + 1).drop_last() =~= s.take(i));
        let v = digits_value(s.take(i), radix);
        assert(v <= v * radix) by (nonlinear_arith)
            requires
                radix >= 2,
        ;
    }
}

/// Parses digits in base `radix` after an optional plus sign, as the standard
/// library does for unsigned integers.
pub fn parse_radix(s: &[char], radix: u32, max: u64) -> (r: Option<u64>)
    requires
        2 <= radix <= 36,
    ensures
        match r {
            Some(v) => parse_number(s@, radix as nat, max as nat) == Some(v as nat),
            None => parse_number(s@, radix as nat, max as nat) is None,
        },
{
    let start: usize = if s.len() > 0 && s[0] == '+' {
        1
    } else {
        0
    };
    let ghost digits = strip_plus(s@);
    assert(digits =~= s@.skip(start as int));
    if s.len() == start {
        return None;
    }
    let mut value: u64 = 0;
    let mut i: usize = start;
    while i < s.len()
        invariant
            2 <= radix <= 36,
            start <= i <= s@.len(),
            start <= 1,
            digits == s@.skip(start as int),
            digits == strip_plus(s@),
            forall|j: int| 0 <= j < i - start ==> digit_value(#[trigger] digits[j]) < radix,
            value == digits_value(digits.take(i - start), radix as nat),
            value <= max,
        decreases s@.len() - i,
    {
        let d = char_digit(s[i]);
        let ghost n = i - start;
        assert(digits[n] == s@[i as int]);
        if d >= radix {
            assert(!all_digits(digits, radix as nat));
            return None;
        }
        proof {
            assert((value as int) * (radix as int) <= u64::MAX as int * 36) by (nonlinear_arith)
                requires
                    0 <= value <= u64::MAX,
                    2 <= radix <= 36,
            ;
            assert(digits.take(n + 1).drop_last() =~= digits.take(n));
            assert(digits.take(n + 1).last() == digits[n]);
            lemma_prefix_value(digits, radix as nat, n + 1);
        }
        let next: u128 = (value as u128) * (radix as u128) + (d as u128);
        if next > max as u128 {
            return None;
        }
        value = next as u64;
        i = i + 1;
    }
    proof { assert(digits.take(digits.len() as int) =~= digits); }
    Some(value)
}

/// The value of a digit, or thirty-six for any other character.
fn char_digit(c: char) -> (d: u32)
    ensures
        d == digit_value(c),
{
    if '0' <= c && c <= '9' {
        c as u32 - '0' as u32
    } else if 'a' <= c && c <= 'z' {
        c as u32 - 'a' as u32 + 10
    } else if 'A' <= c && c <= 'Z' {
        c as u32 - 'A' as u32 + 10
    } else {
        36
    }
}

/// A digit below sixteen.
fn digit_of(d: u8) -> (c: char)
    requires
        d < 16,
    ensures
        c == digit_char(d as nat),
{
    if d < 10 {
        (48 + d) as char
    } else {
        (87 + d) as char
    }
}

/// Parses a decimal `u64` as the standard library does.
pub fn parse_u64(s: &[char]) -> (r: Option<u64>)
    ensures
        match r {
            Some(v) => parse_number(s@, 10, u64::MAX as nat) == Some(v as nat),
            None => parse_number(s@, 10, u64::MAX as nat) is None,
        },
{
    parse_radix(s, 10, u64::MAX)
}

/// Parses a decimal `u32` as the standard library does.
pub fn parse_u32(s: &[char]) -> (r: Option<u32>)
    ensures
        match r {
            Some(v) => parse_number(s@, 10, u32::MAX as nat) == Some(v as nat),
            None => parse_number(s@, 10, u32::MAX as nat) is None,
        },
{
    match parse_radix(s, 10, 0xffff_ffff) {
        Some(v) => Some(v as u32),
        None => None,
    }
}

/// Parses a hexadecimal `u64` as the standard library does.
pub fn parse_hex(s: &[char]) -> (r: Option<u64>)
    ensures
        match r {
            Some(v) => parse_number(s@, 16, u64::MAX as nat) == Some(v as nat),
            None => parse_number(s@, 16, u64::MAX as nat) is None,
        },
{
    parse_radix(s, 16, u64::MAX)
}

/// The `i32` that `s` writes: digits after an optional sign.
pub open spec fn parse_signed(s: Seq<char>) -> Option<int> {
    if s.len() > 0 && s[0] == '-' {
        let digits = s.skip(1);
        if digits.len() > 0 && all_digits(digits, 10) && digits_value(digits, 10)
            <= 0x8000_0000 {
            Some(-digits_value(digits, 10))
        } else {
            None
        }
    } else {
        match parse_number(s, 10, i32::MAX as nat) {
            Some(v) => Some(v as int),
            None => None,
        }
    }
}

/// Parses a decimal `i32` as the standard library does.
pub fn parse_i32(s: &[char]) -> (r: Option<i32>)
    ensures
        match r {
            Some(v) => parse_signed(s@) == Some(v as int),
            None => parse_signed(s@) is None,
        },
{
    if s.len() > 0 && s[0] == '-' {
        let rest = vstd::slice::slice_subrange(s, 1, s.len());
        proof { assert(rest@ =~= s@.skip(1)); }
        if rest.len() > 0 && rest[0] == '+' {
            proof {
                assert(digit_value(s@.skip(1)[0]) == 36);
            }
            return None;
        }
        match parse_radix(rest, 10, 0x8000_0000) {
            Some(v) => {
                let n = -(v as i64);
                Some(n as i32)
            },
            None => None,
        }
    } else {
        match parse_radix(s, 10, 0x7fff_ffff) {
            Some(v) => Some(v as i32),
            None => None,
        }
    }
}

/// The numeral of `n` in base `radix`.
pub fn numeral_chars(n: u128, radix: u128) -> (r: Vec<char>)
    requires
        2 <= radix <= 16,
    ensures
        r@ == numeral(n as nat, radix as nat),
    decreases n,
{
    if n < radix {
        let mut r: Vec<char> = Vec::new();
        r.push(digit_of(n as u8));
        proof { assert(r@ =~= numeral(n as nat, radix as nat)); }
        r
    } else {
        proof {
            assert(n / radix < n) by (nonlinear_arith)
                requires
                    n >= radix,
                    radix >= 2,
            ;
            assert((n % radix) < radix) by (nonlinear_arith)
                requires
                    radix >= 2,
            ;
        }
        let mut r = numeral_chars(n / radix, radix);
        r.push(digit_of((n % radix) as u8));
        r
    }
}

/// The decimal numeral of `n`.
pub fn decimal_chars(n: u128) -> (r: Vec<char>)
    ensures
        r@ == decimal(n as nat),
{
    numeral_chars(n, 10)
}

/// The sixteen hexadecimal digits of `n`.
pub fn hex16_chars(n: u64) -> (r: Vec<char>)
    ensures
        r@ == hex16(n),
{
    let digits = numeral_chars(n as u128, 16);
    proof { lemma_hex_length(n); }
    let mut r: Vec<char> = Vec::new();
    let pad: usize = 16 - digits.len();
    while r.len() < pad
        invariant
            r@.len() <= pad,
            r@ =~= zeros(r@.len()),
        decreases pad - r@.len(),
    {
        r.push('0');
    }
    let mut tail = digits;
    r.append(&mut tail);
    r
}

/// A numeral with `k` digits or fewer writes every number below `radix` to the `k`.
pub proof fn lemma_numeral_length(n: nat, radix: nat, k: nat)
    requires
        radix >= 2,
        k >= 1,
        n < vstd::arithmetic::power::pow(radix as int, k),
    ensures
        1 <= numeral(n, radix).len() <= k,
    decreases n,
{
    if n >= radix {
        vstd::arithmetic::power::lemma_pow1(radix as int);
        assert(k >= 2);
        let q = vstd::arithmetic::power::pow(radix as int, (k - 1) as nat);
        assert(vstd::arithmetic::power::pow(radix as int, k) == radix * q) by {
            reveal(vstd::arithmetic::power::pow);
        }
        assert(n / radix < q && n / radix < n) by (nonlinear_arith)
            requires
                n < radix * q,
                radix >= 2,
                n >= radix,
        ;
        lemma_numeral_length(n / radix, radix, (k - 1) as nat);
    }
}

proof fn lemma_hex_length(n: u64)
    ensures
        1 <= numeral(n as nat, 16).len() <= 16,
{
    assert(vstd::arithmetic::power::pow(16, 16) == 0x1_0000_0000_0000_0000) by {
        vstd::arithmetic::power::lemma_pow1(16);
        vstd::arithmetic::power::lemma_pow_adds(16, 1, 1);
        assert(vstd::arithmetic::power::pow(16, 2) == 0x100);
        vstd::arithmetic::power::lemma_pow_adds(16, 2, 2);
        assert(vstd::arithmetic::power::pow(16, 4) == 0x1_0000);
        vstd::arithmetic::power::lemma_pow_adds(16, 4, 4);
        assert(vstd::arithmetic::power::pow(16, 8) == 0x1_0000_0000);
        vstd::arithmetic::power::lemma_pow_adds(16, 8, 8);
    }
    lemma_numeral_length(n as nat, 16, 16);
}

/// Reading a numeral back gives the number.
pub proof fn lemma_numeral_value(n: nat, radix: nat)
    requires
        2 <= radix <= 16,
    ensures
        numeral(n, radix).len() > 0,
        all_digits(numeral(n, radix), radix),
        digits_value(numeral(n, radix), radix) == n,
    decreases n,
{
    let s = numeral(n, radix);
    if n < radix {
        lemma_digit(n);
        assert(s.drop_last() =~= Seq::empty());
        assert(digits_value(s.drop_last(), radix) == 0);
        assert(0 * radix == 0);
        assert(s.last() == digit_char(n));
    } else {
        assert(n / radix < n && n % radix < radix && (n / radix) * radix + n % radix == n)
            by (nonlinear_arith)
            requires
                radix >= 2,
                n >= radix,
        ;
        lemma_numeral_value(n / radix, radix);
        lemma_digit(n % radix);
        assert(s.drop_last() =~= numeral(n / radix, radix));
        assert(s.last() == digit_char(n % radix));
    }
}

/// The characters of numerals are letters and digits only.
pub proof fn lemma_numeral_chars(n: nat, radix: nat)
    requires
        2 <= radix <= 16,
    ensures
        forall|i: int| 0 <= i < numeral(n, radix).len() ==> is_digit_char(#[trigger] numeral(n, radix)[i]),
    decreases n,
{
    if n >= radix {
        assert(n / radix < n && n % radix < radix) by (nonlinear_arith)
            requires
                radix >= 2,
                n >= radix,
        ;
        lemma_numeral_chars(n / radix, radix);
        lemma_digit(n % radix);
        let front = numeral(n / radix, radix);
        assert forall|i: int| 0 <= i < numeral(n, radix).len() implies is_digit_char(
            #[trigger] numeral(n, radix)[i],
        ) by {
            if i < front.len() {
                assert(numeral(n, radix)[i] == front[i]);
            }
        }
    } else {
        lemma_digit(n);
    }
}

/// A lower-case hexadecimal digit.
pub open spec fn is_digit_char(c: char) -> bool {
    '0' <= c <= '9' || 'a' <= c <= 'f'
}

proof fn lemma_digit(d: nat)
    requires
        d < 16,
    ensures
        digit_value(digit_char(d)) == d,
        is_digit_char(digit_char(d)),
{
}

/// Reading a numeral back as a bounded number gives the number.
pub proof fn lemma_parse_numeral(n: nat, radix: nat, max: nat)
    requires
        2 <= radix <= 16,
        n <= max,
    ensures
        parse_number(numeral(n, radix), radix, max) == Some(n),
{
    lemma_numeral_value(n, radix);
    lemma_numeral_chars(n, radix);
}

/// Reading sixteen hexadecimal digits back gives the number.
pub proof fn lemma_parse_hex16(n: u64)
    ensures
        hex16(n).len() == 16,
        parse_number(hex16(n), 16, u64::MAX as nat) == Some(n as nat),
        forall|i: int| 0 <= i < 16 ==> is_digit_char(#[trigger] hex16(n)[i]),
{
    lemma_hex_length(n);
    lemma_numeral_value(n as nat, 16);
    lemma_numeral_chars(n as nat, 16);
    let body = numeral(n as nat, 16);
    lemma_zero_padding(body, (16 - body.len()) as nat);
    let s = hex16(n);
    assert forall|i: int| 0 <= i < 16 implies is_digit_char(#[trigger] s[i]) by {
        if i >= 16 - body.len() {
            assert(s[i] == body[i - (16 - body.len())]);
        }
    }
    assert forall|i: int| 0 <= i < s.len() implies digit_value(#[trigger] s[i]) < 16 by {
        assert(is_digit_char(s[i]));
    }
    assert(strip_plus(s) == s);
}

proof fn lemma_zero_padding(s: Seq<char>, n: nat)
    ensures
        digits_value(zeros(n) + s, 16) == digits_value(s, 16),
    decreases s.len() + n,
{
    if s.len() > 0 {
        lemma_zero_padding(s.drop_last(), n);
        assert((zeros(n) + s).drop_last() =~= zeros(n) + s.drop_last());
    } else if n > 0 {
        lemma_zero_padding(s, (n - 1) as nat);
        assert(zeros(n) + s =~= zeros(n));
        assert(zeros((n - 1) as nat) + s =~= zeros((n - 1) as nat));
        assert(zeros(n).drop_last() =~= zeros((n - 1) as nat));
    } else {
        assert(zeros(0) + s =~= s);
    }
}

} // verus!
