//! Whole numbers written in decimal.

use vstd::prelude::*;

verus! {

/// The decimal digit for `n`, which is below ten.
pub open spec fn digit(n: nat) -> char {
    (48 + n) as char
}

/// `n` in decimal, without leading zeros.
pub open spec fn decimal(n: nat) -> Seq<char>
    decreases n,
{
    if n < 10 {
        seq![digit(n)]
    } else {
        decimal(n / 10).push(digit(n % 10))
    }
}

/// `i` in decimal, with a leading `-` where it is negative.
pub open spec fn signed_decimal(i: int) -> Seq<char> {
    if i < 0 {
        seq!['-'] + decimal((-i) as nat)
    } else {
        decimal(i as nat)
    }
}

/// `n` in decimal, with zeros in front until there are `width` digits.
pub open spec fn padded(n: nat, width: nat) -> Seq<char> {
    zeros((width - decimal(n).len()) as int) + decimal(n)
}

/// So many zeros.
pub open spec fn zeros(count: int) -> Seq<char> {
    Seq::new(if count > 0 { count as nat } else { 0 }, |i: int| '0')
}

/// Appends `n` in decimal.
pub fn push_decimal(out: &mut Vec<char>, n: u64)
    ensures
        final(out)@ == old(out)@ + decimal(n as nat),
    decreases n,
{
    if n >= 10 {
        push_decimal(out, n / 10);
    }
    out.push((48 + (n % 10) as u8) as char);
}

/// Appends `i` in decimal.
pub fn push_signed(out: &mut Vec<char>, i: i64)
    ensures
        final(out)@ == old(out)@ + signed_decimal(i as int),
{
    if i < 0 {
        out.push('-');
        if i == i64::MIN {
            push_decimal(out, 9223372036854775808);
        } else {
            push_decimal(out, (-i) as u64);
        }
    } else {
        push_decimal(out, i as u64);
    }
}

/// Appends `n` in decimal, padded with zeros to `width` digits.
pub fn push_padded(out: &mut Vec<char>, n: u64, width: usize)
    ensures
        final(out)@ == old(out)@ + padded(n as nat, width as nat),
{
    let mut digits: Vec<char> = Vec::new();
    push_decimal(&mut digits, n);
    let ghost before = out@;
    let mut have: usize = digits.len();
    while have < width
        invariant
            digits@.len() <= have,
            have <= width || have == digits@.len(),
            out@ == before + zeros(have - digits@.len()),
        decreases width - have,
    {
        out.push('0');
        have = have + 1;
        assert(zeros(have - digits@.len()) =~= zeros(have - 1 - digits@.len()).push('0'));
    }
    assert(zeros(have - digits@.len()) =~= zeros(width - digits@.len()));
    crate::text::push_chars(out, &digits);
}

/// `c` is a decimal digit.
pub open spec fn is_digit_char(c: char) -> bool {
    '0' <= c <= '9'
}

/// `s` is one or more decimal digits.
pub open spec fn all_digits(s: Seq<char>) -> bool {
    s.len() > 0 && forall|i: int| 0 <= i < s.len() ==> is_digit_char(#[trigger] s[i])
}

/// The number that a run of decimal digits denotes.
pub open spec fn digits_value(s: Seq<char>) -> nat
    decreases s.len(),
{
    if s.len() == 0 {
        0
    } else {
        10 * digits_value(s.drop_last()) + (s.last() as nat - 48) as nat
    }
}

/// `s` read as an unsigned number of at most `max`: decimal digits, with a `+`
/// allowed in front.
pub open spec fn parsed_unsigned(s: Seq<char>, max: nat) -> Option<nat> {
    let digits = if s.len() > 0 && s[0] == '+' {
        s.skip(1)
    } else {
        s
    };
    if all_digits(digits) && digits_value(digits) <= max {
        Some(digits_value(digits))
    } else {
        None
    }
}

/// `s` read as a signed 64-bit number: decimal digits, with a `+` or `-` allowed
/// in front.
pub open spec fn parsed_signed(s: Seq<char>) -> Option<int> {
    if s.len() > 0 && s[0] == '-' {
        let digits = s.skip(1);
        if all_digits(digits) && digits_value(digits) <= 0x8000_0000_0000_0000 {
            Some(-(digits_value(digits) as int))
        } else {
            None
        }
    } else {
        match parsed_unsigned(s, 0x7fff_ffff_ffff_ffff) {
            Some(n) => Some(n as int),
            None => None,
        }
    }
}

/// A longer run of digits denotes a number at least as large.
proof fn digits_value_grows(s: Seq<char>, n: int)
    requires
        all_digits(s),
        0 <= n <= s.len(),
    ensures
        digits_value(s.take(n)) <= digits_value(s),
    decreases s.len() - n,
{
    if n < s.len() {
        digits_value_grows(s, n + 1);
        assert(s.take(n + 1).drop_last() =~= s.take(n));
    } else {
        assert(s.take(n) =~= s);
    }
}

/// Reads a run of digits as a number of at most `max`.
fn parse_digits(s: &[char], max: u64) -> (r: Option<u64>)
    ensures
        match r {
            Some(n) => all_digits(s@) && n == digits_value(s@) && n <= max,
            None => !all_digits(s@) || digits_value(s@) > max,
        },
{
    if s.len() == 0 {
        return None;
    }
    let mut n: u64 = 0;
    for i in 0..s.len()
        invariant
            n == digits_value(s@.take(i as int)),
            n <= max,
            forall|j: int| 0 <= j < i ==> is_digit_char(#[trigger] s@[j]),
            s@.len() > 0,
    {
        let c = s[i];
        if c < '0' || c > '9' {
            assert(!is_digit_char(s@[i as int]));
            return None;
        }
        let d: u64 = (c as u8 - 48) as u64;
        assert(s@.take(i + 1).drop_last() =~= s@.take(i as int));
        assert(digits_value(s@.take(i + 1)) == 10 * n + d);
        if n > (u64::MAX - d) / 10 || n * 10 + d > max {
            proof {
                if all_digits(s@) {
                    digits_value_grows(s@, i + 1);
                }
            }
            return None;
        }
        n = n * 10 + d;
    }
    assert(s@.take(s.len() as int) =~= s@);
    Some(n)
}

/// Reads an unsigned decimal number of at most `max`.
pub fn parse_unsigned(s: &[char], max: u64) -> (r: Option<u64>)
    ensures
        match r {
            Some(n) => parsed_unsigned(s@, max as nat) == Some(n as nat),
            None => parsed_unsigned(s@, max as nat) is None,
        },
{
    match crate::text::strip_first(s, '+') {
        Some(digits) => parse_digits(digits, max),
        None => parse_digits(s, max),
    }
}

/// Reads a signed decimal number.
pub fn parse_signed(s: &[char]) -> (r: Option<i64>)
    ensures
        match r {
            Some(n) => parsed_signed(s@) == Some(n as int),
            None => parsed_signed(s@) is None,
        },
{
    match crate::text::strip_first(s, '-') {
        Some(digits) => match parse_digits(digits, 0x8000_0000_0000_0000) {
            Some(n) => if n == 0x8000_0000_0000_0000 {
                Some(i64::MIN)
            } else {
                Some(-(n as i64))
            },
            None => None,
        },
        None => match parse_unsigned(s, 0x7fff_ffff_ffff_ffff) {
            Some(n) => Some(n as i64),
            None => None,
        },
    }
}

/// Decimal notation names its number: reading what was written gives it back.
pub proof fn decimal_reads_back(n: nat)
    ensures
        all_digits(decimal(n)),
        digits_value(decimal(n)) == n,
    decreases n,
{
    if n >= 10 {
        decimal_reads_back(n / 10);
        let s = decimal(n);
        assert(s.drop_last() =~= decimal(n / 10));
        assert(all_digits(s)) by {
            assert forall|i: int| 0 <= i < s.len() implies is_digit_char(#[trigger] s[i]) by {
                if i < s.len() - 1 {
                    assert(s[i] == decimal(n / 10)[i]);
                }
            }
        }
    } else {
        assert(decimal(n).drop_last() =~= Seq::<char>::empty());
        assert(digits_value(decimal(n).drop_last()) == 0);
    }
}

proof fn leading_zeros_add_nothing(count: int, s: Seq<char>)
    ensures
        digits_value(zeros(count) + s) == digits_value(s),
    decreases s.len(), count,
{
    let t = zeros(count) + s;
    if s.len() > 0 {
        leading_zeros_add_nothing(count, s.drop_last());
        assert(t.drop_last() =~= zeros(count) + s.drop_last());
    } else if count > 0 {
        leading_zeros_add_nothing(count - 1, s);
        assert(t.drop_last() =~= zeros(count - 1) + s);
    } else {
        assert(t =~= s);
    }
}

/// A number that fits is read back from its padded text, which is digits only.
pub proof fn padded_reads_back(n: nat, width: nat, max: nat)
    requires
        n <= max,
    ensures
        all_digits(padded(n, width)),
        digits_value(padded(n, width)) == n,
        parsed_unsigned(padded(n, width), max) == Some(n),
{
    let s = padded(n, width);
    let count = (width - decimal(n).len()) as int;
    decimal_reads_back(n);
    leading_zeros_add_nothing(count, decimal(n));
    assert forall|i: int| 0 <= i < s.len() implies is_digit_char(#[trigger] s[i]) by {
        if i >= zeros(count).len() {
            assert(s[i] == decimal(n)[i - zeros(count).len()]);
        }
    }
    assert(is_digit_char(s[0]));
}

/// Every 64-bit number is read back from its decimal text.
pub proof fn signed_decimal_reads_back(i: i64)
    ensures
        parsed_signed(signed_decimal(i as int)) == Some(i as int),
{
    if i < 0 {
        decimal_reads_back((-(i as int)) as nat);
        assert(signed_decimal(i as int).skip(1) =~= decimal((-(i as int)) as nat));
    } else {
        decimal_reads_back(i as nat);
        assert(is_digit_char(decimal(i as nat)[0]));
    }
}

/// Decimal notation in plain terms: zero is `0`, no other number starts with a zero,
/// and one more digit makes ten times the number and the digit.
pub proof fn decimal_notation(n: nat, d: nat)
    requires
        d < 10,
    ensures
        decimal(0) == seq!['0'],
        n > 0 ==> decimal(n)[0] != '0',
        n > 0 ==> decimal(10 * n + d) == decimal(n).push((48 + d) as char),
    decreases n,
{
    if n >= 10 {
        decimal_notation(n / 10, 0);
        assert(decimal(n)[0] == decimal(n / 10)[0]) by {
            decimal_reads_back(n / 10);
        }
    }
    assert((10 * n + d) / 10 == n);
    assert((10 * n + d) % 10 == d);
}

/// A run of digits read in plain terms: none is zero, and a further one makes ten
/// times the number and the digit.
pub proof fn digits_are_places(s: Seq<char>, c: char)
    requires
        '0' <= c <= '9',
    ensures
        digits_value(Seq::<char>::empty()) == 0,
        digits_value(s.push(c)) == 10 * digits_value(s) + (c as int - '0' as int),
{
    assert(s.push(c).drop_last() =~= s);
}

/// A signed number is a `-` and its size where it is negative, and its size alone
/// where it is not.
pub proof fn signs_are_written(i: int)
    ensures
        i >= 0 ==> signed_decimal(i) == decimal(i as nat),
        i < 0 ==> signed_decimal(i)[0] == '-' && signed_decimal(i).skip(1) == decimal((-i) as nat),
{
    if i < 0 {
        assert(signed_decimal(i).skip(1) =~= decimal((-i) as nat));
    }
}

/// Padding puts zeros in front until the width is reached, and cuts nothing off.
pub proof fn padding_is_zeros(n: nat, width: nat)
    ensures
        decimal(n).len() >= width ==> padded(n, width) == decimal(n),
        decimal(n).len() < width ==> padded(n, width).len() == width,
        forall|k: int|
            0 <= k < padded(n, width).len() - decimal(n).len() ==> #[trigger] padded(n, width)[k]
                == '0',
        padded(n, width).skip(padded(n, width).len() - decimal(n).len()) == decimal(n),
{
    let z = padded(n, width).len() - decimal(n).len();
    assert(padded(n, width).skip(z) =~= decimal(n));
    if decimal(n).len() >= width {
        assert(padded(n, width) =~= decimal(n));
    }
}

/// What is read as a number: one or more digits with a value in range, a `+` allowed
/// in front, and for a signed number a `-`; nothing else.
pub proof fn numbers_are_digits(digits: Seq<char>, max: nat)
    requires
        digits.len() > 0,
        forall|k: int| 0 <= k < digits.len() ==> '0' <= #[trigger] digits[k] <= '9',
    ensures
        parsed_unsigned(digits, max) == (if digits_value(digits) <= max {
            Some(digits_value(digits))
        } else {
            None
        }),
        parsed_unsigned(seq!['+'] + digits, max) == parsed_unsigned(digits, max),
        parsed_unsigned(seq!['-'] + digits, max) is None,
        parsed_signed(seq!['-'] + digits) == (if digits_value(digits) <= 0x8000_0000_0000_0000 {
            Some(-(digits_value(digits) as int))
        } else {
            None
        }),
        parsed_signed(seq!['+'] + digits) == parsed_signed(digits),
        parsed_signed(digits) == (if digits_value(digits) <= 0x7fff_ffff_ffff_ffff {
            Some(digits_value(digits) as int)
        } else {
            None
        }),
{
    assert('0' <= digits[0] <= '9');
    assert forall|k: int| 0 <= k < digits.len() implies is_digit_char(#[trigger] digits[k]) by {
        assert('0' <= digits[k] <= '9');
    }
    assert((seq!['+'] + digits).skip(1) =~= digits);
    assert((seq!['-'] + digits).skip(1) =~= digits);
    let m = seq!['-'] + digits;
    assert(!is_digit_char(m[0]));
}

/// Text without digits, or with anything but digits behind its sign, is no number.
pub proof fn other_text_is_no_number(s: Seq<char>, max: nat, k: int)
    requires
        s.len() == 0 || (1 <= k < s.len() && !('0' <= s[k] <= '9')) || (s.len() == 1 && !('0' <= s[0]
            <= '9')),
    ensures
        parsed_unsigned(s, max) is None,
        parsed_signed(s) is None,
{
    if s.len() > 0 {
        let t = s.skip(1);
        if 1 <= k < s.len() && !('0' <= s[k] <= '9') {
            assert(t[k - 1] == s[k]);
            assert(!is_digit_char(t[k - 1]));
            assert(!is_digit_char(s[k]));
        } else {
            assert(!is_digit_char(s[0]));
        }
    }
}

} // verus!
