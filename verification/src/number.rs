//! Numbers in text, as the kernel prints them and as Rust's integers parse
//! them.

use vstd::prelude::*;
use vstd::slice::slice_subrange;

verus! {

/// Why a run of characters is not a number.
#[derive(Clone, Copy, Debug, PartialEq, Eq, Structural)]
pub enum NumberFault {
    Empty,
    InvalidDigit,
    Overflow,
}

impl NumberFault {
    pub open spec fn text(self) -> Seq<char> {
        match self {
            NumberFault::Empty => "cannot parse integer from empty string"@,
            NumberFault::InvalidDigit => "invalid digit found in string"@,
            NumberFault::Overflow => "number too large to fit in target type"@,
        }
    }

    pub fn message(self) -> (r: &'static str)
        ensures
            r@ == self.text(),
    {
        match self {
            NumberFault::Empty => "cannot parse integer from empty string",
            NumberFault::InvalidDigit => "invalid digit found in string",
            NumberFault::Overflow => "number too large to fit in target type",
        }
    }
}

/// The value of a digit in `radix`, in either case.
pub open spec fn digit_of(c: char, radix: int) -> Option<int> {
    let value = if '0' <= c <= '9' {
        c as int - '0' as int
    } else if 'a' <= c <= 'z' {
        c as int - 'a' as int + 10
    } else if 'A' <= c <= 'Z' {
        c as int - 'A' as int + 10
    } else {
        radix
    };
    if value < radix {
        Some(value)
    } else {
        None
    }
}

/// The number that the digits `s` write, most significant first, refused at
/// the first character that is no digit or takes it past `max`.
pub open spec fn read_digits(s: Seq<char>, radix: int, max: int) -> Result<int, NumberFault>
    decreases s.len(),
{
    if s.len() == 0 {
        Ok(0)
    } else {
        match read_digits(s.drop_last(), radix, max) {
            Err(fault) => Err(fault),
            Ok(high) => match digit_of(s.last(), radix) {
                None => Err(NumberFault::InvalidDigit),
                Some(low) => if high * radix + low > max {
                    Err(NumberFault::Overflow)
                } else {
                    Ok(high * radix + low)
                },
            },
        }
    }
}

/// An unsigned number as Rust's integers parse one: digits, perhaps after a
/// plus sign.
pub open spec fn read_unsigned(s: Seq<char>, radix: int, max: int) -> Result<int, NumberFault> {
    if s.len() == 0 {
        Err(NumberFault::Empty)
    } else if s.len() > 1 && s[0] == '+' {
        read_digits(s.skip(1), radix, max)
    } else {
        read_digits(s, radix, max)
    }
}

/// A signed decimal number that fits in 64 bits.
pub open spec fn read_signed(s: Seq<char>) -> Option<int> {
    if s.len() > 1 && s[0] == '-' {
        match read_digits(s.skip(1), 10, 0x8000_0000_0000_0000) {
            Ok(value) => Some(-value),
            Err(_) => None,
        }
    } else {
        match read_unsigned(s, 10, i64::MAX as int) {
            Ok(value) => Some(value),
            Err(_) => None,
        }
    }
}

fn digit(c: char, radix: u64) -> (r: Option<u64>)
    requires
        2 <= radix <= 36,
    ensures
        r is Some <==> digit_of(c, radix as int) is Some,
        r matches Some(d) ==> digit_of(c, radix as int) == Some(d as int) && d < radix,
{
    let value: u64 = if '0' <= c && c <= '9' {
        (c as u64) - 48
    } else if 'a' <= c && c <= 'z' {
        (c as u64) - 97 + 10
    } else if 'A' <= c && c <= 'Z' {
        (c as u64) - 65 + 10
    } else {
        radix
    };
    if value < radix {
        Some(value)
    } else {
        None
    }
}

/// A number's digits never read as less than nothing.
pub proof fn lemma_read_digits_range(s: Seq<char>, radix: int, max: int)
    requires
        radix >= 2,
        max >= 0,
    ensures
        read_digits(s, radix, max) matches Ok(v) ==> 0 <= v <= max,
    decreases s.len(),
{
    if s.len() > 0 {
        lemma_read_digits_range(s.drop_last(), radix, max);
        if let Ok(high) = read_digits(s.drop_last(), radix, max) {
            assert(high * radix >= 0) by (nonlinear_arith)
                requires
                    high >= 0,
                    radix >= 2,
            ;
        }
    }
}

/// What is refused in a prefix is refused in the whole.
proof fn lemma_read_digits_prefix(s: Seq<char>, n: int, radix: int, max: int)
    requires
        0 <= n <= s.len(),
        read_digits(s.take(n), radix, max) is Err,
    ensures
        read_digits(s, radix, max) == read_digits(s.take(n), radix, max),
    decreases s.len() - n,
{
    if n < s.len() {
        assert(s.take(n + 1).drop_last() == s.take(n));
        lemma_read_digits_prefix(s, n + 1, radix, max);
    } else {
        assert(s.take(n) == s);
    }
}

fn parse_digits(s: &[char], radix: u64, max: u64) -> (r: Result<u64, NumberFault>)
    requires
        2 <= radix <= 36,
    ensures
        match r {
            Ok(v) => read_digits(s@, radix as int, max as int) == Ok::<int, NumberFault>(v as int),
            Err(fault) => read_digits(s@, radix as int, max as int) == Err::<int, NumberFault>(
                fault,
            ),
        },
{
    let mut value: u64 = 0;
    let mut i: usize = 0;
    while i < s.len()
        invariant
            i <= s.len(),
            2 <= radix <= 36,
            read_digits(s@.take(i as int), radix as int, max as int) == Ok::<int, NumberFault>(
                value as int,
            ),
        decreases s.len() - i,
    {
        assert(s@.take(i + 1).drop_last() == s@.take(i as int));
        match digit(s[i], radix) {
            None => {
                proof {
                    lemma_read_digits_prefix(s@, i + 1, radix as int, max as int);
                }
                return Err(NumberFault::InvalidDigit);
            },
            Some(low) => {
                assert(value * radix <= 0xffff_ffff_ffff_ffff * 36) by (nonlinear_arith)
                    requires
                        value <= 0xffff_ffff_ffff_ffff,
                        radix <= 36,
                ;
                assert(value * radix >= 0) by (nonlinear_arith);
                let next: u128 = value as u128 * radix as u128 + low as u128;
                if next > max as u128 {
                    proof {
                        lemma_read_digits_prefix(s@, i + 1, radix as int, max as int);
                    }
                    return Err(NumberFault::Overflow);
                }
                value = next as u64;
            },
        }
        i = i + 1;
    }
    assert(s@.take(i as int) == s@);
    Ok(value)
}

pub fn parse_unsigned(s: &[char], radix: u64, max: u64) -> (r: Result<u64, NumberFault>)
    requires
        2 <= radix <= 36,
    ensures
        match r {
            Ok(v) => read_unsigned(s@, radix as int, max as int) == Ok::<int, NumberFault>(
                v as int,
            ) && v <= max,
            Err(fault) => read_unsigned(s@, radix as int, max as int) == Err::<int, NumberFault>(
                fault,
            ),
        },
{
    if s.len() == 0 {
        return Err(NumberFault::Empty);
    }
    proof {
        lemma_read_digits_range(s@, radix as int, max as int);
        lemma_read_digits_range(s@.skip(1), radix as int, max as int);
    }
    if s.len() > 1 && s[0] == '+' {
        let rest: &[char] = slice_subrange(s, 1, s.len());
        assert(rest@ == s@.skip(1));
        parse_digits(rest, radix, max)
    } else {
        parse_digits(s, radix, max)
    }
}

pub fn parse_signed(s: &[char]) -> (r: Option<i64>)
    ensures
        r is Some <==> read_signed(s@) is Some,
        r matches Some(v) ==> read_signed(s@) == Some(v as int),
{
    if s.len() > 1 && s[0] == '-' {
        let rest: &[char] = slice_subrange(s, 1, s.len());
        assert(rest@ == s@.skip(1));
        proof {
            lemma_read_digits_range(rest@, 10, 0x8000_0000_0000_0000);
        }
        match parse_digits(rest, 10, 0x8000_0000_0000_0000) {
            Ok(value) => {
                if value == 0x8000_0000_0000_0000 {
                    Some(i64::MIN)
                } else {
                    Some(-(value as i64))
                }
            },
            Err(_) => None,
        }
    } else {
        match parse_unsigned(s, 10, 0x7fff_ffff_ffff_ffff) {
            Ok(value) => Some(value as i64),
            Err(_) => None,
        }
    }
}

/// The digit for `d`, in upper or lower case.
pub open spec fn digit_char(d: int, upper: bool) -> char {
    if d < 10 {
        ('0' as int + d) as char
    } else if upper {
        ('A' as int + d - 10) as char
    } else {
        ('a' as int + d - 10) as char
    }
}

/// `value` written in `radix`, with no leading zero.
pub open spec fn digits(value: nat, radix: nat, upper: bool) -> Seq<char>
    decreases value,
{
    if radix < 2 || value < radix {
        seq![digit_char(value as int, upper)]
    } else {
        proof {
            assert(value / radix < value) by (nonlinear_arith)
                requires
                    value >= radix,
                    radix >= 2,
            ;
        }
        digits(value / radix, radix, upper).push(digit_char((value % radix) as int, upper))
    }
}

pub open spec fn zeros(n: int) -> Seq<char> {
    Seq::new(
        if n > 0 {
            n as nat
        } else {
            0
        },
        |i: int| '0',
    )
}

/// `s` with zeros before it, up to `width` characters.
pub open spec fn padded(s: Seq<char>, width: int) -> Seq<char> {
    zeros(width - s.len()) + s
}

/// Lower-case hexadecimal, at least `width` digits.
pub open spec fn hex(value: int, width: int) -> Seq<char> {
    padded(digits(value as nat, 16, false), width)
}

/// Upper-case hexadecimal, at least `width` digits.
pub open spec fn hex_upper(value: int, width: int) -> Seq<char> {
    padded(digits(value as nat, 16, true), width)
}

pub open spec fn decimal(value: int) -> Seq<char> {
    digits(value as nat, 10, false)
}

fn to_digit_char(d: u64, upper: bool) -> (r: char)
    requires
        d < 16,
    ensures
        r == digit_char(d as int, upper),
{
    if d < 10 {
        (48 + d as u8) as char
    } else if upper {
        (65 + (d as u8 - 10)) as char
    } else {
        (97 + (d as u8 - 10)) as char
    }
}

fn push_digits(out: &mut String, value: u64, radix: u64, upper: bool)
    requires
        2 <= radix <= 16,
    ensures
        final(out)@ == old(out)@ + digits(value as nat, radix as nat, upper),
    decreases value,
{
    if value < radix {
        out.push(to_digit_char(value, upper));
    } else {
        assert(value / radix < value) by (nonlinear_arith)
            requires
                value >= radix,
                radix >= 2,
        ;
        assert(value % radix < radix) by (nonlinear_arith)
            requires
                radix >= 2,
        ;
        push_digits(out, value / radix, radix, upper);
        out.push(to_digit_char(value % radix, upper));
    }
}

fn count_digits(value: u64, radix: u64) -> (r: usize)
    requires
        2 <= radix <= 16,
    ensures
        r == digits(value as nat, radix as nat, false).len(),
        r == digits(value as nat, radix as nat, true).len(),
        r <= value + 1,
        r <= 64,
    decreases value,
{
    proof {
        lemma_digits_len(value as nat, radix as nat);
    }
    if value < radix {
        1
    } else {
        assert(value / radix < value) by (nonlinear_arith)
            requires
                value >= radix,
                radix >= 2,
        ;
        let high: usize = count_digits(value / radix, radix);
        high + 1
    }
}

pub open spec fn power(base: nat, n: nat) -> nat
    decreases n,
{
    if n == 0 {
        1
    } else {
        base * power(base, (n - 1) as nat)
    }
}

proof fn lemma_digits_len(value: nat, radix: nat)
    requires
        2 <= radix,
        value < 0x1_0000_0000_0000_0000,
    ensures
        digits(value, radix, false).len() <= 64,
        digits(value, radix, true).len() == digits(value, radix, false).len(),
{
    assert(power(2, 64) == 0x1_0000_0000_0000_0000) by {
        reveal_with_fuel(power, 65);
    }
    lemma_digits_len_below(value, radix, 64);
}

proof fn lemma_digits_len_below(value: nat, radix: nat, n: nat)
    requires
        2 <= radix,
        n >= 1,
        value < power(2, n),
    ensures
        1 <= digits(value, radix, false).len() <= n,
        digits(value, radix, true).len() == digits(value, radix, false).len(),
    decreases n,
{
    if value >= radix {
        assert(value / radix <= value / 2) by (nonlinear_arith)
            requires
                radix >= 2,
        ;
        if n == 1 {
            assert(power(2, 1) == 2 * power(2, 0));
            assert(false);
        }
        assert(power(2, n) == 2 * power(2, (n - 1) as nat));
        lemma_digits_len_below(value / radix, radix, (n - 1) as nat);
    }
}

fn push_padded(out: &mut String, value: u64, radix: u64, width: usize, upper: bool)
    requires
        2 <= radix <= 16,
    ensures
        final(out)@ == old(out)@ + padded(
            digits(value as nat, radix as nat, upper),
            width as int,
        ),
{
    let n: usize = count_digits(value, radix);
    let mut i: usize = n;
    while i < width
        invariant
            n <= i,
            n <= width ==> i <= width,
            n > width ==> i == n,
            out@ == old(out)@ + zeros(i - n),
        decreases width - i,
    {
        out.push('0');
        assert(zeros(i - n).push('0') =~= zeros(i + 1 - n));
        i = i + 1;
    }
    push_digits(out, value, radix, upper);
    assert(zeros(i - n) =~= zeros(width - n));
    assert(out@ =~= old(out)@ + (zeros(width - n) + digits(value as nat, radix as nat, upper)));
}

pub fn push_hex(out: &mut String, value: u64, width: usize)
    ensures
        final(out)@ == old(out)@ + hex(value as int, width as int),
{
    push_padded(out, value, 16, width, false);
}

pub fn push_hex_upper(out: &mut String, value: u64, width: usize)
    ensures
        final(out)@ == old(out)@ + hex_upper(value as int, width as int),
{
    push_padded(out, value, 16, width, true);
}

pub fn push_decimal(out: &mut String, value: u64)
    ensures
        final(out)@ == old(out)@ + decimal(value as int),
{
    push_digits(out, value, 10, false);
}

/// A number written in lower-case hexadecimal reads back as itself, whatever
/// the zeros before it.
pub proof fn hex_reads_back(value: nat, width: int, max: int)
    requires
        value <= max,
    ensures
        read_unsigned(hex(value as int, width), 16, max) == Ok::<int, NumberFault>(value as int),
{
    let s = hex(value as int, width);
    lemma_read_padded_digits(value, width - digits(value, 16, false).len(), 16, max);
    lemma_digits_are_digits(value, 16);
    assert(s.len() > 0);
    assert(s[0] != '+') by {
        if width - digits(value, 16, false).len() > 0 {
            assert(s[0] == '0');
        } else {
            assert(s =~= digits(value, 16, false));
        }
    }
}

/// A decimal number reads back as itself.
pub proof fn decimal_reads_back(value: nat, max: int)
    requires
        value <= max,
    ensures
        read_unsigned(decimal(value as int), 10, max) == Ok::<int, NumberFault>(value as int),
{
    lemma_read_padded_digits(value, 0, 10, max);
    lemma_digits_are_digits(value, 10);
    assert(zeros(0) + decimal(value as int) =~= decimal(value as int));
}

/// A character a number is written with.
pub open spec fn is_number_char(c: char) -> bool {
    '0' <= c <= '9' || 'a' <= c <= 'f'
}

pub proof fn lemma_digits_are_digits(value: nat, radix: nat)
    requires
        2 <= radix <= 16,
    ensures
        digits(value, radix, false).len() >= 1,
        forall|i: int|
            0 <= i < digits(value, radix, false).len() ==> is_number_char(
                #[trigger] digits(value, radix, false)[i],
            ),
    decreases value,
{
    if value >= radix {
        assert(value / radix < value) by (nonlinear_arith)
            requires
                value >= radix,
                radix >= 2,
        ;
        assert(value % radix < radix) by (nonlinear_arith)
            requires
                radix >= 2,
        ;
        lemma_digits_are_digits(value / radix, radix);
    }
}

proof fn lemma_read_zeros(n: int, radix: int, max: int)
    requires
        max >= 0,
        radix >= 2,
    ensures
        read_digits(zeros(n), radix, max) == Ok::<int, NumberFault>(0),
    decreases n,
{
    if n > 0 {
        assert(zeros(n).drop_last() =~= zeros(n - 1));
        lemma_read_zeros(n - 1, radix, max);
        assert(0 * radix == 0) by (nonlinear_arith);
    }
}

proof fn lemma_read_padded_digits(value: nat, n: int, radix: nat, max: int)
    requires
        value <= max,
        2 <= radix <= 16,
    ensures
        read_digits(zeros(n) + digits(value, radix, false), radix as int, max) == Ok::<
            int,
            NumberFault,
        >(value as int),
    decreases value,
{
    let s = zeros(n) + digits(value, radix, false);
    if value < radix {
        assert(s.drop_last() =~= zeros(n));
        lemma_read_zeros(n, radix as int, max);
        assert(0 * (radix as int) == 0) by (nonlinear_arith);
        assert(s.last() == digit_char(value as int, false));
    } else {
        assert(value / radix < value) by (nonlinear_arith)
            requires
                value >= radix,
                radix >= 2,
        ;
        assert(value % radix < radix && value == (value / radix) * radix + value % radix)
            by (nonlinear_arith)
            requires
                radix >= 2,
        ;
        lemma_read_padded_digits(value / radix, n, radix, max);
        assert(s.drop_last() =~= zeros(n) + digits(value / radix, radix, false));
        assert(s.last() == digit_char((value % radix) as int, false));
    }
}

/// What reads as a number is made of digits, but for a plus sign in front.
pub proof fn lemma_read_unsigned_chars(s: Seq<char>, radix: int, max: int)
    requires
        read_unsigned(s, radix, max) is Ok,
    ensures
        forall|i: int|
            0 <= i < s.len() ==> digit_of(#[trigger] s[i], radix) is Some || (i == 0 && s[i] == '+'),
{
    if s.len() > 1 && s[0] == '+' {
        lemma_read_digits_chars(s.skip(1), radix, max);
        assert forall|i: int| 0 <= i < s.len() implies digit_of(#[trigger] s[i], radix) is Some || (
        i == 0 && s[i] == '+') by {
            if i > 0 {
                assert(s[i] == s.skip(1)[i - 1]);
            }
        }
    } else {
        lemma_read_digits_chars(s, radix, max);
    }
}

proof fn lemma_read_digits_chars(s: Seq<char>, radix: int, max: int)
    requires
        read_digits(s, radix, max) is Ok,
    ensures
        forall|i: int| 0 <= i < s.len() ==> digit_of(#[trigger] s[i], radix) is Some,
    decreases s.len(),
{
    if s.len() > 0 {
        let front = s.drop_last();
        lemma_read_digits_chars(front, radix, max);
        assert forall|i: int| 0 <= i < s.len() implies digit_of(#[trigger] s[i], radix) is Some by {
            if i < front.len() {
                assert(s[i] == front[i]);
            }
        }
    }
}

/// Digits read on from what those before them read as.
pub proof fn lemma_read_digits_append(a: Seq<char>, b: Seq<char>, radix: nat, max: int, high: nat)
    requires
        2 <= radix,
        max >= 0,
        read_digits(a, radix as int, max) == Ok::<int, NumberFault>(high as int),
        read_digits(b, radix as int, max) is Ok,
        high * power(radix, b.len()) + read_digits(b, radix as int, max)->Ok_0 <= max,
    ensures
        read_digits(a + b, radix as int, max) == Ok::<int, NumberFault>(
            high * power(radix, b.len()) + read_digits(b, radix as int, max)->Ok_0,
        ),
    decreases b.len(),
{
    if b.len() == 0 {
        assert(a + b =~= a);
        assert(high * 1 == high) by (nonlinear_arith);
    } else {
        let front = b.drop_last();
        let low = digit_of(b.last(), radix as int)->0;
        let mid = read_digits(front, radix as int, max)->Ok_0;
        let unit = power(radix, front.len());
        lemma_read_digits_range(front, radix as int, max);
        assert(power(radix, b.len()) == radix * unit);
        assert((high * unit + mid) * radix + low == high * (radix * unit) + (mid * radix + low))
            by (nonlinear_arith);
        assert(high * unit + mid <= max) by (nonlinear_arith)
            requires
                (high * unit + mid) * radix + low <= max,
                high * unit + mid >= 0,
                radix >= 2,
                low >= 0,
        ;
        lemma_read_digits_append(a, front, radix, max, high);
        assert((a + b).drop_last() =~= a + front);
        assert((a + b).last() == b.last());
    }
}

/// Sixteen to the powers that hexadecimal fields shift by.
pub proof fn lemma_powers_of_sixteen()
    ensures
        power(16, 1) == 16,
        power(16, 2) == 256,
        power(16, 3) == 4096,
{
    reveal_with_fuel(power, 4);
}

// --- What holds of numbers ---------------------------------------------------

/// The digits of hexadecimal numbers are the ten and the first six letters, in
/// either case.
pub proof fn digits_have_their_usual_values(d: int, upper: bool, c: char)
    requires
        0 <= d < 16,
    ensures
        d < 10 ==> digit_char(d, upper) as int == 48 + d,
        d >= 10 ==> digit_char(d, upper) as int == (if upper {
            55 + d
        } else {
            87 + d
        }),
        digit_of(digit_char(d, upper), 16) == Some(d),
        digit_of(c, 16) == Some(d) ==> c == digit_char(d, false) || c == digit_char(d, true),
        d < 10 ==> digit_of(digit_char(d, upper), 10) == Some(d),
        d >= 10 ==> digit_of(digit_char(d, upper), 10) is None,
        digit_of(c, 10) == Some(d) ==> c == digit_char(d, false),
{
}

proof fn lemma_read_cased_digits(value: nat, n: int, radix: nat, max: int, upper: bool)
    requires
        max >= 0,
        2 <= radix <= 16,
    ensures
        read_digits(zeros(n) + digits(value, radix, upper), radix as int, max) == if value <= max {
            Ok::<int, NumberFault>(value as int)
        } else {
            Err(NumberFault::Overflow)
        },
    decreases value,
{
    let s = zeros(n) + digits(value, radix, upper);
    if value < radix {
        assert(s.drop_last() =~= zeros(n));
        lemma_read_zeros(n, radix as int, max);
        assert(0 * (radix as int) == 0) by (nonlinear_arith);
        assert(s.last() == digit_char(value as int, upper));
    } else {
        assert(value / radix < value) by (nonlinear_arith)
            requires
                value >= radix,
                radix >= 2,
        ;
        assert(value % radix < radix && value == (value / radix) * radix + value % radix)
            by (nonlinear_arith)
            requires
                radix >= 2,
        ;
        lemma_read_cased_digits(value / radix, n, radix, max, upper);
        assert(s.drop_last() =~= zeros(n) + digits(value / radix, radix, upper));
        assert(s.last() == digit_char((value % radix) as int, upper));
    }
}

proof fn lemma_numeral_starts(value: nat, width: int, radix: nat, upper: bool)
    requires
        2 <= radix <= 16,
    ensures
        padded(digits(value, radix, upper), width).len() > 0,
        padded(digits(value, radix, upper), width)[0] != '+',
        padded(digits(value, radix, upper), width)[0] != '-',
        digits(value, radix, upper)[0] != '+',
        digits(value, radix, upper)[0] != '-',
        digits(value, radix, upper).len() > 0,
        padded(digits(value, radix, upper), width) == zeros(
            width - digits(value, radix, upper).len(),
        ) + digits(value, radix, upper),
    decreases value,
{
    let d = digits(value, radix, upper);
    if value >= radix {
        assert(value / radix < value) by (nonlinear_arith)
            requires
                value >= radix,
                radix >= 2,
        ;
        lemma_numeral_starts(value / radix, width, radix, upper);
        assert(d[0] == digits(value / radix, radix, upper)[0]);
    } else {
        assert(d[0] == digit_char(value as int, upper));
    }
    let p = padded(d, width);
    if width - d.len() > 0 {
        assert(p[0] == '0');
    } else {
        assert(p =~= d);
    }
}

/// A number that is written in hexadecimal, in either case and with zeros before
/// it or not, is read as that number where it fits, and told as too large where
/// it does not.
pub proof fn a_hex_number_is_what_it_says(value: nat, width: int, max: int)
    requires
        max >= 0,
    ensures
        ({
            let end = if value <= max {
                Ok::<int, NumberFault>(value as int)
            } else {
                Err(NumberFault::Overflow)
            };
            &&& read_unsigned(hex(value as int, width), 16, max) == end
            &&& read_unsigned(hex_upper(value as int, width), 16, max) == end
        }),
{
    lemma_numeral_starts(value, width, 16, false);
    lemma_numeral_starts(value, width, 16, true);
    lemma_read_cased_digits(value, width - digits(value, 16, false).len(), 16, max, false);
    lemma_read_cased_digits(value, width - digits(value, 16, true).len(), 16, max, true);
}

/// A decimal number is what it says where it fits, with a sign or without.
pub proof fn a_decimal_number_is_what_it_says(value: nat, max: int)
    requires
        max >= 0,
    ensures
        read_unsigned(decimal(value as int), 10, max) == if value <= max {
            Ok::<int, NumberFault>(value as int)
        } else {
            Err(NumberFault::Overflow)
        },
        read_signed(decimal(value as int)) == if value <= 0x7fff_ffff_ffff_ffff {
            Some(value as int)
        } else {
            None
        },
        read_signed(seq!['-'] + decimal(value as int)) == if value <= 0x8000_0000_0000_0000 {
            Some(-(value as int))
        } else {
            None
        },
{
    let d = decimal(value as int);
    lemma_numeral_starts(value, 0, 10, false);
    assert(zeros(0) + d =~= d);
    lemma_read_cased_digits(value, 0, 10, max, false);
    lemma_read_cased_digits(value, 0, 10, 0x7fff_ffff_ffff_ffff, false);
    lemma_read_cased_digits(value, 0, 10, 0x8000_0000_0000_0000, false);
    assert((seq!['-'] + d).skip(1) =~= d);
}

/// Nothing is a number that has a character which is no digit, but for one plus
/// sign in front of digits, and nothing at all is none.
pub proof fn what_is_no_number_is_refused(s: Seq<char>, radix: int, max: int, i: int)
    requires
        0 <= i < s.len(),
        digit_of(s[i], radix) is None,
        i > 0 || s[i] != '+' || s.len() == 1,
    ensures
        read_unsigned(s, radix, max) is Err,
        read_unsigned(Seq::<char>::empty(), radix, max) == Err::<int, NumberFault>(
            NumberFault::Empty,
        ),
{
    if read_unsigned(s, radix, max) is Ok {
        lemma_read_unsigned_chars(s, radix, max);
        if s.len() == 1 {
            lemma_read_digits_chars(s, radix, max);
        }
    }
}

/// A plus sign in front of a number does not matter.
pub proof fn a_plus_sign_does_not_matter(s: Seq<char>, radix: int, max: int)
    requires
        s.len() > 0,
        s[0] != '+',
    ensures
        read_unsigned(seq!['+'] + s, radix, max) == read_unsigned(s, radix, max),
{
    assert((seq!['+'] + s).skip(1) =~= s);
}

proof fn lemma_digits_fit(value: nat, width: nat, upper: bool)
    requires
        width >= 1,
        value < power(16, width),
    ensures
        1 <= digits(value, 16, upper).len() <= width,
    decreases width,
{
    if value >= 16 {
        if width == 1 {
            assert(power(16, 1) == 16 * power(16, 0));
        } else {
            assert(power(16, width) == 16 * power(16, (width - 1) as nat));
            lemma_digits_fit(value / 16, (width - 1) as nat, upper);
        }
    }
}

/// A number that fits a width is written with just that many digits, the first
/// of them standing for zeros.
pub proof fn a_padded_number_has_its_width(value: nat, width: nat)
    requires
        width >= 1,
        value < power(16, width),
    ensures
        hex(value as int, width as int).len() == width,
        hex_upper(value as int, width as int).len() == width,
{
    lemma_digits_fit(value, width, false);
    lemma_digits_fit(value, width, true);
}

/// What a number is written with: digits, and letters of one case.
pub proof fn lemma_numeral_chars(value: nat, width: int, radix: nat, upper: bool)
    requires
        2 <= radix <= 16,
    ensures
        forall|i: int|
            0 <= i < padded(digits(value, radix, upper), width).len() ==> ({
                let c = #[trigger] padded(digits(value, radix, upper), width)[i] as int;
                48 <= c <= 57 || (if upper {
                    65 <= c <= 70
                } else {
                    97 <= c <= 102
                })
            }),
    decreases value,
{
    let d = digits(value, radix, upper);
    let p = padded(d, width);
    lemma_numeral_starts(value, width, radix, upper);
    if value >= radix {
        assert(value / radix < value) by (nonlinear_arith)
            requires
                value >= radix,
                radix >= 2,
        ;
        assert(value % radix < radix) by (nonlinear_arith)
            requires
                radix >= 2,
        ;
        let front = digits(value / radix, radix, upper);
        lemma_numeral_chars(value / radix, 0, radix, upper);
        lemma_numeral_starts(value / radix, 0, radix, upper);
        assert(zeros(0 - front.len()) + front =~= front);
        assert forall|i: int| 0 <= i < p.len() implies ({
            let c = #[trigger] p[i] as int;
            48 <= c <= 57 || (if upper {
                65 <= c <= 70
            } else {
                97 <= c <= 102
            })
        }) by {
            let n = zeros(width - d.len()).len();
            if n <= i < n + front.len() {
                assert(p[i] == front[i - n]);
            } else if i >= n {
                assert(p[i] == digit_char((value % radix) as int, upper));
            }
        }
    }
}

/// A number is never written with nothing.
pub proof fn a_padded_number_is_something(value: nat, width: int)
    ensures
        hex(value as int, width).len() > 0,
        hex_upper(value as int, width).len() > 0,
        decimal(value as int).len() > 0,
{
    lemma_numeral_starts(value, width, 16, false);
    lemma_numeral_starts(value, width, 16, true);
    lemma_numeral_starts(value, 0, 10, false);
}

/// Nothing is a signed number that has a character behind its first which is no
/// digit.
pub proof fn what_is_no_signed_number_is_refused(s: Seq<char>, i: int)
    requires
        0 < i < s.len(),
        digit_of(s[i], 10) is None,
    ensures
        read_signed(s) is None,
{
    if s[0] == '-' {
        let rest = s.skip(1);
        assert(rest[i - 1] == s[i]);
        if read_digits(rest, 10, 0x8000_0000_0000_0000) is Ok {
            lemma_read_digits_chars(rest, 10, 0x8000_0000_0000_0000);
        }
    } else {
        what_is_no_number_is_refused(s, 10, i64::MAX as int, i);
    }
}

/// A number is written without a zero in front of it, unless it is zero.
pub proof fn a_number_has_no_zero_before_it(value: nat, radix: nat, upper: bool)
    requires
        2 <= radix <= 16,
    ensures
        digits(value, radix, upper)[0] == '0' <==> value == 0,
        value == 0 ==> digits(value, radix, upper).len() == 1,
        digits(value, radix, upper).len() > 0,
    decreases value,
{
    if value >= radix {
        assert(value / radix < value && value / radix > 0) by (nonlinear_arith)
            requires
                value >= radix,
                radix >= 2,
        ;
        a_number_has_no_zero_before_it(value / radix, radix, upper);
    }
}

/// Reading stops at the first thing that is wrong: a character that is no digit
/// behind what still fits, or a digit that takes the number too far. What follows
/// does not matter.
pub proof fn the_first_fault_counts(good: Seq<char>, c: char, rest: Seq<char>, radix: int, max: int)
    requires
        read_digits(good, radix, max) is Ok,
    ensures
        ({
            let s = good.push(c) + rest;
            let high = read_digits(good, radix, max)->Ok_0;
            &&& digit_of(c, radix) is None ==> read_digits(s, radix, max) == Err::<
                int,
                NumberFault,
            >(NumberFault::InvalidDigit)
            &&& digit_of(c, radix) matches Some(low) ==> high * radix + low > max ==> read_digits(
                s,
                radix,
                max,
            ) == Err::<int, NumberFault>(NumberFault::Overflow)
        }),
    decreases rest.len(),
{
    let s = good.push(c) + rest;
    if rest.len() == 0 {
        assert(s =~= good.push(c));
        assert(s.drop_last() =~= good);
    } else {
        assert(s.drop_last() =~= good.push(c) + rest.drop_last());
        the_first_fault_counts(good, c, rest.drop_last(), radix, max);
    }
}

/// What is wrong with a number, in words.
pub proof fn a_number_fault_says_so()
    ensures
        NumberFault::Empty.text() == "cannot parse integer from empty string"@,
        NumberFault::InvalidDigit.text() == "invalid digit found in string"@,
        NumberFault::Overflow.text() == "number too large to fit in target type"@,
{
}

} // verus!
