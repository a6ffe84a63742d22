//! Dates and times in text form. The engine stores them as text.

use vstd::prelude::*;

use crate::numeric;
use crate::protocol::stmt::{BinaryValue, BinaryView};
use crate::text;

verus! {

// ---------------------------------------------------------------------------
// Reading
// ---------------------------------------------------------------------------
/// The number of decimal digits from `i` on.
pub open spec fn digit_count(s: Seq<char>, i: int) -> nat
    decreases s.len() - i,
{
    if 0 <= i < s.len() && numeric::is_digit_char(s[i]) {
        1 + digit_count(s, i + 1)
    } else {
        0
    }
}

/// `n` times ten, `times` over.
pub open spec fn scaled(n: nat, times: nat) -> nat
    decreases times,
{
    if times == 0 {
        n
    } else {
        10 * scaled(n, (times - 1) as nat)
    }
}

/// The microseconds that a fraction of a second gives: its first six digits, with
/// zeros for those that are missing. `None` if it starts with no digit.
pub open spec fn micros_of(frac: Seq<char>) -> Option<nat> {
    let have = digit_count(frac, 0);
    let n = if have < 6 {
        have
    } else {
        6
    };
    if n == 0 {
        None
    } else {
        Some(scaled(numeric::digits_value(frac.take(n as int)), (6 - n) as nat))
    }
}

/// Three numbers of at most `max` each, with `sep` between them.
pub open spec fn three_numbers(s: Seq<char>, sep: char, max: (nat, nat, nat)) -> Option<
    (nat, nat, nat),
> {
    let p = text::pieces_from(s, sep, 0);
    if p.len() != 3 {
        None
    } else {
        match (
            numeric::parsed_unsigned(p[0], max.0),
            numeric::parsed_unsigned(p[1], max.1),
            numeric::parsed_unsigned(p[2], max.2),
        ) {
            (Some(a), Some(b), Some(c)) => Some((a, b, c)),
            _ => None,
        }
    }
}

/// `H:MM:SS[.ffffff]` as hours, minutes, seconds and microseconds.
pub open spec fn clock_of(t: Seq<char>) -> Option<(nat, nat, nat, nat)> {
    let dot = text::char_pos(t, '.', 0);
    match three_numbers(t.take(dot), ':', (u32::MAX as nat, 0xff, 0xff)) {
        None => None,
        Some((h, m, s)) => if dot < t.len() {
            match micros_of(t.skip(dot + 1)) {
                Some(us) => Some((h, m, s, us)),
                None => None,
            }
        } else {
            Some((h, m, s, 0))
        },
    }
}

/// The same for a time of day, whose hour is below 24.
pub open spec fn day_clock_of(t: Seq<char>) -> Option<(nat, nat, nat, nat)> {
    match clock_of(t) {
        Some((h, m, s, us)) if h < 24 => Some((h, m, s, us)),
        _ => None,
    }
}

/// The first blank or `T`, or the end.
pub open spec fn time_pos(s: Seq<char>, i: int) -> int
    decreases s.len() - i,
{
    if i >= s.len() || i < 0 || s[i] == ' ' || s[i] == 'T' {
        i
    } else {
        time_pos(s, i + 1)
    }
}

/// `YYYY-MM-DD[ HH:MM:SS[.ffffff]]` as a date and time.
pub open spec fn datetime_of(text: Seq<char>) -> Option<BinaryView> {
    let s = text::trimmed(text);
    let sep = time_pos(s, 0);
    match three_numbers(s.take(sep), '-', (0xffff, 0xff, 0xff)) {
        None => None,
        Some((year, month, day)) => match if sep < s.len() {
            day_clock_of(s.skip(sep + 1))
        } else {
            Some((0, 0, 0, 0))
        } {
            None => None,
            Some((h, m, s, us)) => Some(
                BinaryView::DateTime {
                    year: year as u16,
                    month: month as u8,
                    day: day as u8,
                    hour: h as u8,
                    minute: m as u8,
                    second: s as u8,
                    micros: us as u32,
                },
            ),
        },
    }
}

/// `[-]H:MM:SS[.ffffff]` as a duration.
pub open spec fn time_of(text: Seq<char>) -> Option<BinaryView> {
    let s = text::trimmed(text);
    let negative = s.len() > 0 && s[0] == '-';
    match clock_of(
        if negative {
            s.skip(1)
        } else {
            s
        },
    ) {
        None => None,
        Some((h, m, s, us)) => Some(
            BinaryView::Time {
                negative,
                days: (h / 24) as u32,
                hour: (h % 24) as u8,
                minute: m as u8,
                second: s as u8,
                micros: us as u32,
            },
        ),
    }
}

proof fn digit_count_facts(s: Seq<char>, i: int)
    ensures
        0 <= i <= s.len() ==> i + digit_count(s, i) <= s.len(),
        forall|j: int| i <= j < i + digit_count(s, i) ==> numeric::is_digit_char(#[trigger] s[j]),
    decreases s.len() - i,
{
    if 0 <= i < s.len() && numeric::is_digit_char(s[i]) {
        digit_count_facts(s, i + 1);
    }
}

proof fn scaled_bound(n: nat, digits: nat, times: nat)
    requires
        n < ten_to(digits),
    ensures
        scaled(n, times) < ten_to(digits + times),
    decreases times,
{
    if times > 0 {
        scaled_bound(n, digits, (times - 1) as nat);
        assert(ten_to(digits + times) == 10 * ten_to((digits + times - 1) as nat));
    }
}

/// Ten to the power of `n`.
pub open spec fn ten_to(n: nat) -> nat
    decreases n,
{
    if n == 0 {
        1
    } else {
        10 * ten_to((n - 1) as nat)
    }
}

proof fn digits_value_bound(s: Seq<char>)
    requires
        forall|i: int| 0 <= i < s.len() ==> numeric::is_digit_char(#[trigger] s[i]),
    ensures
        numeric::digits_value(s) < ten_to(s.len()),
    decreases s.len(),
{
    if s.len() > 0 {
        let rest = s.drop_last();
        assert forall|i: int| 0 <= i < rest.len() implies numeric::is_digit_char(
            #[trigger] rest[i],
        ) by {
            assert(rest[i] == s[i]);
        }
        digits_value_bound(rest);
        assert(numeric::is_digit_char(s[s.len() - 1]));
    }
}

/// A fraction of a second is less than a million microseconds.
pub proof fn micros_are_bounded(frac: Seq<char>)
    ensures
        micros_of(frac) matches Some(us) ==> us < 1000000,
{
    let have = digit_count(frac, 0);
    let n: nat = if have < 6 {
        have
    } else {
        6
    };
    if n > 0 {
        digit_count_facts(frac, 0);
        let head = frac.take(n as int);
        assert forall|i: int| 0 <= i < head.len() implies numeric::is_digit_char(
            #[trigger] head[i],
        ) by {
            assert(head[i] == frac[i]);
        }
        digits_value_bound(head);
        scaled_bound(numeric::digits_value(head), n, (6 - n) as nat);
        assert(n + (6 - n) as nat == 6);
        reveal_with_fuel(ten_to, 7);
    }
}

/// Reads the microseconds of a fraction of a second.
fn read_micros(frac: &[char]) -> (r: Option<u32>)
    ensures
        match r {
            Some(us) => micros_of(frac@) == Some(us as nat),
            None => micros_of(frac@) is None,
        },
{
    let mut n: usize = 0;
    proof {
        digit_count_facts(frac@, 0);
        micros_are_bounded(frac@);
    }
    while n < 6 && n < frac.len() && '0' <= frac[n] && frac[n] <= '9'
        invariant
            n <= 6,
            n <= frac@.len(),
            digit_count(frac@, 0) == n + digit_count(frac@, n as int),
        decreases 6 - n,
    {
        n = n + 1;
    }
    if n == 0 {
        return None;
    }
    let ghost head = frac@.take(n as int);
    let digits = &frac[0..n];
    proof {
        assert(digits@ =~= head);
        digit_count_facts(frac@, n as int);
        assert forall|i: int| 0 <= i < head.len() implies numeric::is_digit_char(
            #[trigger] head[i],
        ) by {
            assert(head[i] == frac@[i]);
        }
        assert(numeric::all_digits(head));
        assert(numeric::is_digit_char(head[0]));
        digits_value_bound(head);
        reveal_with_fuel(ten_to, 7);
        ten_grows(n as nat, 6);
    }
    let mut us: u64 = match numeric::parse_unsigned(digits, u32::MAX as u64) {
        Some(v) => v,
        None => return None,
    };
    let mut k: usize = n;
    while k < 6
        invariant
            1 <= n <= k <= 6,
            us == scaled(numeric::digits_value(head), (k - n) as nat),
            numeric::digits_value(head) < ten_to(n as nat),
        decreases 6 - k,
    {
        proof {
            scaled_bound(numeric::digits_value(head), n as nat, (k - n) as nat);
            assert(n as nat + (k - n) as nat == k as nat);
            ten_grows(k as nat, 6);
            reveal_with_fuel(ten_to, 7);
        }
        us = us * 10;
        k = k + 1;
    }
    Some(us as u32)
}

proof fn ten_grows(a: nat, b: nat)
    requires
        a <= b,
    ensures
        ten_to(a) <= ten_to(b),
    decreases b,
{
    if a < b {
        ten_grows(a, (b - 1) as nat);
    }
}

/// Reads three numbers.
fn read_three(s: &[char], sep: char, max: (u64, u64, u64)) -> (r: Option<(u64, u64, u64)>)
    ensures
        match r {
            Some((a, b, c)) => three_numbers(s@, sep, (max.0 as nat, max.1 as nat, max.2 as nat))
                == Some((a as nat, b as nat, c as nat)) && a <= max.0 && b <= max.1 && c <= max.2,
            None => three_numbers(s@, sep, (max.0 as nat, max.1 as nat, max.2 as nat)) is None,
        },
{
    let pieces = text::split_at_char(s, sep);
    let ghost p = pieces.deep_view();
    if pieces.len() != 3 {
        assert(p.len() != 3);
        return None;
    }
    assert(p[0] == pieces@[0]@ && p[1] == pieces@[1]@ && p[2] == pieces@[2]@);
    let a = text::chars_of(pieces[0].as_str());
    let b = text::chars_of(pieces[1].as_str());
    let c = text::chars_of(pieces[2].as_str());
    match (
        numeric::parse_unsigned(&a, max.0),
        numeric::parse_unsigned(&b, max.1),
        numeric::parse_unsigned(&c, max.2),
    ) {
        (Some(a), Some(b), Some(c)) => Some((a, b, c)),
        _ => None,
    }
}

/// Reads hours, minutes, seconds and microseconds. The hours may be more than a
/// day has.
fn parse_hms_wide(t: &[char]) -> (r: Option<(u32, u8, u8, u32)>)
    ensures
        match r {
            Some((h, m, s, us)) => clock_of(t@) == Some(
                (h as nat, m as nat, s as nat, us as nat),
            ),
            None => clock_of(t@) is None,
        },
{
    let dot: usize = text::find_char(t, '.', 0);
    let head = &t[0..dot];
    assert(head@ =~= t@.take(dot as int));
    match read_three(head, ':', (u32::MAX as u64, 0xff, 0xff)) {
        None => None,
        Some((h, m, s)) => if dot < t.len() {
            let frac = &t[dot + 1..t.len()];
            assert(frac@ =~= t@.skip(dot + 1));
            match read_micros(frac) {
                Some(us) => Some((h as u32, m as u8, s as u8, us)),
                None => None,
            }
        } else {
            Some((h as u32, m as u8, s as u8, 0))
        },
    }
}

/// Reads a time of day.
fn parse_hms(t: &[char]) -> (r: Option<(u8, u8, u8, u32)>)
    ensures
        match r {
            Some((h, m, s, us)) => day_clock_of(t@) == Some(
                (h as nat, m as nat, s as nat, us as nat),
            ),
            None => day_clock_of(t@) is None,
        },
{
    match parse_hms_wide(t) {
        None => None,
        Some((h, m, s, us)) => if h < 24 {
            Some((h as u8, m, s, us))
        } else {
            None
        },
    }
}

/// Reads a date, or a date and time.
pub fn parse_datetime(value: &str) -> (r: Option<BinaryValue>)
    ensures
        match r {
            Some(v) => datetime_of(value@) == Some(v@),
            None => datetime_of(value@) is None,
        },
{
    let chars = text::chars_of(value);
    let s = text::trim(&chars);
    let mut sep: usize = 0;
    while sep < s.len() && s[sep] != ' ' && s[sep] != 'T'
        invariant
            sep <= s@.len(),
            time_pos(s@, 0) == time_pos(s@, sep as int),
        decreases s@.len() - sep,
    {
        sep = sep + 1;
    }
    let date = &s[0..sep];
    assert(date@ =~= s@.take(sep as int));
    match read_three(date, '-', (0xffff, 0xff, 0xff)) {
        None => None,
        Some((year, month, day)) => {
            let clock = if sep < s.len() {
                let t = &s[sep + 1..s.len()];
                assert(t@ =~= s@.skip(sep + 1));
                parse_hms(t)
            } else {
                Some((0, 0, 0, 0))
            };
            match clock {
                None => None,
                Some((hour, minute, second, micros)) => Some(
                    BinaryValue::DateTime {
                        year: year as u16,
                        month: month as u8,
                        day: day as u8,
                        hour,
                        minute,
                        second,
                        micros,
                    },
                ),
            }
        },
    }
}

/// Reads a duration.
pub fn parse_time(value: &str) -> (r: Option<BinaryValue>)
    ensures
        match r {
            Some(v) => time_of(value@) == Some(v@),
            None => time_of(value@) is None,
        },
{
    let chars = text::chars_of(value);
    let s = text::trim(&chars);
    let negative = s.len() > 0 && s[0] == '-';
    let rest = if negative {
        &s[1..s.len()]
    } else {
        s
    };
    assert(negative ==> rest@ =~= s@.skip(1));
    match parse_hms_wide(rest) {
        None => None,
        Some((h, minute, second, micros)) => Some(
            BinaryValue::Time {
                negative,
                days: h / 24,
                hour: (h % 24) as u8,
                minute,
                second,
                micros,
            },
        ),
    }
}

// ---------------------------------------------------------------------------
// Writing
// ---------------------------------------------------------------------------
/// A fraction of a second, if it is not zero.
pub open spec fn fraction_text(us: u32) -> Seq<char> {
    if us == 0 {
        seq![]
    } else {
        seq!['.'] + numeric::padded(us as nat, 6)
    }
}

/// Hours, minutes, seconds and their fraction.
pub open spec fn clock_text(hours: nat, minute: u8, second: u8, us: u32) -> Seq<char> {
    numeric::padded(hours, 2) + seq![':'] + numeric::padded(minute as nat, 2) + seq![':']
        + numeric::padded(second as nat, 2) + fraction_text(us)
}

/// A date.
pub open spec fn date_text(year: u16, month: u8, day: u8) -> Seq<char> {
    numeric::padded(year as nat, 4) + seq!['-'] + numeric::padded(month as nat, 2) + seq!['-']
        + numeric::padded(day as nat, 2)
}

/// A date and time; midnight is left out.
pub open spec fn datetime_text(
    year: u16,
    month: u8,
    day: u8,
    hour: u8,
    minute: u8,
    second: u8,
    us: u32,
) -> Seq<char> {
    let date = date_text(year, month, day);
    if hour != 0 || minute != 0 || second != 0 || us != 0 {
        date + seq![' '] + clock_text(hour as nat, minute, second, us)
    } else {
        date
    }
}

/// A duration.
pub open spec fn time_text(
    negative: bool,
    days: u32,
    hour: u8,
    minute: u8,
    second: u8,
    us: u32,
) -> Seq<char> {
    (if negative {
        seq!['-']
    } else {
        seq![]
    }) + clock_text((days * 24 + hour) as nat, minute, second, us)
}

/// Appends hours, minutes, seconds and their fraction.
pub fn push_clock(out: &mut Vec<char>, hours: u64, minute: u8, second: u8, us: u32)
    ensures
        final(out)@ == old(out)@ + clock_text(hours as nat, minute, second, us),
{
    numeric::push_padded(out, hours, 2);
    out.push(':');
    numeric::push_padded(out, minute as u64, 2);
    out.push(':');
    numeric::push_padded(out, second as u64, 2);
    if us != 0 {
        out.push('.');
        numeric::push_padded(out, us as u64, 6);
    }
    assert(out@ =~= old(out)@ + clock_text(hours as nat, minute, second, us));
}

/// Writes a date and time.
pub fn write_datetime(
    year: u16,
    month: u8,
    day: u8,
    hour: u8,
    minute: u8,
    second: u8,
    us: u32,
) -> (r: String)
    ensures
        r@ == datetime_text(year, month, day, hour, minute, second, us),
{
    let mut out: Vec<char> = Vec::new();
    numeric::push_padded(&mut out, year as u64, 4);
    out.push('-');
    numeric::push_padded(&mut out, month as u64, 2);
    out.push('-');
    numeric::push_padded(&mut out, day as u64, 2);
    if hour != 0 || minute != 0 || second != 0 || us != 0 {
        out.push(' ');
        push_clock(&mut out, hour as u64, minute, second, us);
    }
    assert(out@ =~= datetime_text(year, month, day, hour, minute, second, us));
    text::string_of(&out)
}

/// Writes a duration.
pub fn write_time(negative: bool, days: u32, hour: u8, minute: u8, second: u8, us: u32) -> (r:
    String)
    requires
        days * 24 + hour <= u32::MAX,
    ensures
        r@ == time_text(negative, days, hour, minute, second, us),
{
    let mut out: Vec<char> = Vec::new();
    if negative {
        out.push('-');
    }
    let hours: u32 = days * 24 + hour as u32;
    push_clock(&mut out, hours as u64, minute, second, us);
    assert(out@ =~= time_text(negative, days, hour, minute, second, us));
    text::string_of(&out)
}

// ---------------------------------------------------------------------------
// What is written reads back
// ---------------------------------------------------------------------------
proof fn decimal_length(n: nat, k: nat)
    requires
        n < ten_to(k),
        0 < k,
    ensures
        numeric::decimal(n).len() <= k,
    decreases n,
{
    if n >= 10 {
        if k == 1 {
            reveal_with_fuel(ten_to, 2);
        }
        assert(ten_to(k) == 10 * ten_to((k - 1) as nat));
        if k > 1 {
            decimal_length(n / 10, (k - 1) as nat);
        }
    }
}

/// Three runs of digits are told apart by a separator that is no digit.
proof fn three_numbers_read(
    a: Seq<char>,
    b: Seq<char>,
    c: Seq<char>,
    sep: char,
    max: (nat, nat, nat),
)
    requires
        numeric::all_digits(a),
        numeric::all_digits(b),
        numeric::all_digits(c),
        !numeric::is_digit_char(sep),
        numeric::parsed_unsigned(a, max.0) is Some,
        numeric::parsed_unsigned(b, max.1) is Some,
        numeric::parsed_unsigned(c, max.2) is Some,
    ensures
        three_numbers(a + seq![sep] + b + seq![sep] + c, sep, max) == Some(
            (
                numeric::parsed_unsigned(a, max.0)->0,
                numeric::parsed_unsigned(b, max.1)->0,
                numeric::parsed_unsigned(c, max.2)->0,
            ),
        ),
{
    let s = a + seq![sep] + b + seq![sep] + c;
    let one = a.len() as int;
    let two = one + 1 + b.len();
    assert forall|j: int| 0 <= j < one implies #[trigger] s[j] != sep by {
        assert(s[j] == a[j]);
    }
    text::char_pos_is(s, sep, 0, one);
    assert forall|j: int| one + 1 <= j < two implies #[trigger] s[j] != sep by {
        assert(s[j] == b[j - one - 1]);
    }
    text::char_pos_is(s, sep, one + 1, two);
    assert forall|j: int| two + 1 <= j < s.len() implies #[trigger] s[j] != sep by {
        assert(s[j] == c[j - two - 1]);
    }
    text::char_pos_is(s, sep, two + 1, s.len() as int);
    assert(s.subrange(0, one) =~= a);
    assert(s.subrange(one + 1, two) =~= b);
    assert(s.subrange(two + 1, s.len() as int) =~= c);
    let last = text::pieces_from(s, sep, two + 1);
    assert(last == seq![c]);
    let later = text::pieces_from(s, sep, one + 1);
    assert(later == seq![b] + last);
    assert(text::pieces_from(s, sep, 0) == seq![a] + later);
    assert(text::pieces_from(s, sep, 0) =~= seq![a, b, c]);
}

proof fn digit_count_of_digits(s: Seq<char>, i: int)
    requires
        0 <= i <= s.len(),
        forall|j: int| 0 <= j < s.len() ==> numeric::is_digit_char(#[trigger] s[j]),
    ensures
        digit_count(s, i) == s.len() - i,
    decreases s.len() - i,
{
    if i < s.len() {
        digit_count_of_digits(s, i + 1);
    }
}

/// A clock text reads back, and no character of it is white space, a `T` or a `-`.
proof fn clock_reads_back(hours: nat, minute: u8, second: u8, us: u32)
    requires
        hours <= u32::MAX,
        us < 1000000,
    ensures
        clock_of(clock_text(hours, minute, second, us)) == Some(
            (hours, minute as nat, second as nat, us as nat),
        ),
        clock_text(hours, minute, second, us).len() > 0,
        numeric::is_digit_char(clock_text(hours, minute, second, us)[0]),
        numeric::is_digit_char(clock_text(hours, minute, second, us).last()),
{
    let a = numeric::padded(hours, 2);
    let b = numeric::padded(minute as nat, 2);
    let c = numeric::padded(second as nat, 2);
    let f = numeric::padded(us as nat, 6);
    let t = clock_text(hours, minute, second, us);
    let head = a + seq![':'] + b + seq![':'] + c;
    numeric::padded_reads_back(hours, 2, u32::MAX as nat);
    numeric::padded_reads_back(minute as nat, 2, 0xff);
    numeric::padded_reads_back(second as nat, 2, 0xff);
    numeric::padded_reads_back(us as nat, 6, us as nat);
    three_numbers_read(a, b, c, ':', (u32::MAX as nat, 0xff, 0xff));
    assert(t[0] == a[0] && numeric::is_digit_char(a[0]));
    assert forall|j: int| 0 <= j < head.len() implies #[trigger] t[j] != '.' by {
        assert(t[j] == head[j]);
        if j < a.len() {
            assert(head[j] == a[j]);
        } else if a.len() < j < a.len() + 1 + b.len() {
            assert(head[j] == b[j - a.len() - 1]);
        } else if j > a.len() + 1 + b.len() {
            assert(head[j] == c[j - a.len() - b.len() - 2]);
        }
    }
    text::char_pos_is(t, '.', 0, head.len() as int);
    assert(t.take(head.len() as int) =~= head);
    if us != 0 {
        assert(t.skip(head.len() as int + 1) =~= f);
        assert(us < ten_to(6)) by {
            reveal_with_fuel(ten_to, 7);
        }
        decimal_length(us as nat, 6);
        digit_count_of_digits(f, 0);
        assert(f.take(6) =~= f);
        assert(t.last() == f.last() && numeric::is_digit_char(f.last()));
    } else {
        assert(t =~= head);
        assert(t.last() == c.last() && numeric::is_digit_char(c.last()));
    }
}

/// Text that starts and ends in no white space is its own trimmed form.
proof fn trimmed_is_same(s: Seq<char>)
    requires
        s.len() > 0,
        !text::space(s[0]),
        !text::space(s.last()),
    ensures
        text::trimmed(s) == s,
{
}

proof fn time_pos_is(s: Seq<char>, i: int, at: int)
    requires
        0 <= i <= at <= s.len(),
        forall|j: int| i <= j < at ==> #[trigger] s[j] != ' ' && s[j] != 'T',
        at < s.len() ==> s[at] == ' ',
    ensures
        time_pos(s, i) == at,
    decreases at - i,
{
    if i < at {
        time_pos_is(s, i + 1, at);
    }
}

/// Every date and time of day reads back from its text.
pub proof fn datetime_text_reads_back(
    year: u16,
    month: u8,
    day: u8,
    hour: u8,
    minute: u8,
    second: u8,
    micros: u32,
)
    requires
        hour < 24,
        micros < 1000000,
    ensures
        datetime_of(datetime_text(year, month, day, hour, minute, second, micros)) == Some(
            (BinaryView::DateTime { year, month, day, hour, minute, second, micros }),
        ),
{
    let a = numeric::padded(year as nat, 4);
    let b = numeric::padded(month as nat, 2);
    let c = numeric::padded(day as nat, 2);
    let date = date_text(year, month, day);
    let clock = clock_text(hour as nat, minute, second, micros);
    let s = datetime_text(year, month, day, hour, minute, second, micros);
    numeric::padded_reads_back(year as nat, 4, 0xffff);
    numeric::padded_reads_back(month as nat, 2, 0xff);
    numeric::padded_reads_back(day as nat, 2, 0xff);
    three_numbers_read(a, b, c, '-', (0xffff, 0xff, 0xff));
    clock_reads_back(hour as nat, minute, second, micros);
    assert(s[0] == a[0] && numeric::is_digit_char(a[0]));
    assert forall|j: int| 0 <= j < date.len() implies #[trigger] s[j] != ' ' && s[j] != 'T' by {
        assert(s[j] == date[j]);
        if j < a.len() {
            assert(date[j] == a[j]);
        } else if a.len() < j < a.len() + 1 + b.len() {
            assert(date[j] == b[j - a.len() - 1]);
        } else if j > a.len() + 1 + b.len() {
            assert(date[j] == c[j - a.len() - b.len() - 2]);
        }
    }
    if hour != 0 || minute != 0 || second != 0 || micros != 0 {
        assert(s.last() == clock.last());
        trimmed_is_same(s);
        time_pos_is(s, 0, date.len() as int);
        assert(s.take(date.len() as int) =~= date);
        assert(s.skip(date.len() as int + 1) =~= clock);
    } else {
        assert(s.last() == c.last() && numeric::is_digit_char(c.last()));
        trimmed_is_same(s);
        time_pos_is(s, 0, date.len() as int);
        assert(s.take(date.len() as int) =~= date);
    }
}

/// Every duration with less than a day's hours beside its days reads back from its
/// text.
pub proof fn time_text_reads_back(
    negative: bool,
    days: u32,
    hour: u8,
    minute: u8,
    second: u8,
    micros: u32,
)
    requires
        days * 24 + hour <= u32::MAX,
        hour < 24,
        micros < 1000000,
    ensures
        time_of(time_text(negative, days, hour, minute, second, micros)) == Some(
            (BinaryView::Time { negative, days, hour, minute, second, micros }),
        ),
{
    let hours = (days * 24 + hour) as nat;
    let clock = clock_text(hours, minute, second, micros);
    let s = time_text(negative, days, hour, minute, second, micros);
    clock_reads_back(hours, minute, second, micros);
    assert(s.last() == clock.last());
    if negative {
        assert(s[0] == '-');
        assert(s.skip(1) =~= clock);
    } else {
        assert(s =~= clock);
    }
    trimmed_is_same(s);
}

// ---------------------------------------------------------------------------
// What is read, in plain terms
// ---------------------------------------------------------------------------
/// The first six digits of a fraction are read, and each is worth ten times the next:
/// `5` is 500000 microseconds, `05` is 50000.
pub proof fn fractions_are_decimal(f: Seq<char>, more: Seq<char>)
    requires
        0 < f.len() <= 6,
        forall|k: int| 0 <= k < f.len() ==> '0' <= #[trigger] f[k] <= '9',
        f.len() < 6 ==> more.len() == 0 || !('0' <= more[0] <= '9'),
    ensures
        ({
            let v = numeric::digits_value(f);
            let us = micros_of(f + more);
            &&& f.len() == 1 ==> us == Some((100000 * v) as nat)
            &&& f.len() == 2 ==> us == Some((10000 * v) as nat)
            &&& f.len() == 3 ==> us == Some((1000 * v) as nat)
            &&& f.len() == 4 ==> us == Some((100 * v) as nat)
            &&& f.len() == 5 ==> us == Some((10 * v) as nat)
            &&& f.len() == 6 ==> us == Some(v)
        }),
{
    let s = f + more;
    count_in_front(f, more, 0);
    assert(s.take(f.len() as int) =~= f);
    reveal_with_fuel(scaled, 7);
}

proof fn count_in_front(f: Seq<char>, more: Seq<char>, i: int)
    requires
        0 <= i <= f.len(),
        forall|k: int| 0 <= k < f.len() ==> '0' <= #[trigger] f[k] <= '9',
    ensures
        digit_count(f + more, i) >= f.len() - i,
        more.len() == 0 || !('0' <= more[0] <= '9') ==> digit_count(f + more, i) == f.len() - i,
    decreases f.len() - i,
{
    let s = f + more;
    if i < f.len() {
        assert(s[i] == f[i]);
        assert('0' <= f[i] <= '9');
        count_in_front(f, more, i + 1);
    } else if more.len() > 0 {
        assert(s[i] == more[0]);
    }
}

/// A fraction without a digit is refused.
pub proof fn empty_fractions_are_refused(f: Seq<char>)
    requires
        f.len() == 0 || !('0' <= f[0] <= '9'),
    ensures
        micros_of(f) is None,
{
}

/// `h:m:s` and `h:m:s.f` are hours, minutes, seconds, and a fraction of a second.
pub proof fn clocks_are_read(h: Seq<char>, m: Seq<char>, s: Seq<char>, f: Seq<char>)
    requires
        numeric::all_digits(h),
        numeric::all_digits(m),
        numeric::all_digits(s),
        numeric::digits_value(h) <= 0xffff_ffff,
        numeric::digits_value(m) <= 255,
        numeric::digits_value(s) <= 255,
    ensures
        clock_of(h + seq![':'] + m + seq![':'] + s) == Some(
            (
                numeric::digits_value(h),
                numeric::digits_value(m),
                numeric::digits_value(s),
                0nat,
            ),
        ),
        clock_of(h + seq![':'] + m + seq![':'] + s + seq!['.'] + f) == match micros_of(f) {
            Some(us) => Some(
                (
                    numeric::digits_value(h),
                    numeric::digits_value(m),
                    numeric::digits_value(s),
                    us,
                ),
            ),
            None => None,
        },
{
    let head = h + seq![':'] + m + seq![':'] + s;
    let t = head + seq!['.'] + f;
    let n = head.len() as int;
    assert(numeric::is_digit_char(h[0]) && numeric::is_digit_char(m[0]) && numeric::is_digit_char(
        s[0],
    ));
    three_numbers_read(h, m, s, ':', (u32::MAX as nat, 0xff, 0xff));
    assert forall|j: int| 0 <= j < n implies #[trigger] head[j] != '.' by {
        if j < h.len() {
            assert(head[j] == h[j]);
            assert(numeric::is_digit_char(h[j]));
        } else if h.len() < j < h.len() + 1 + m.len() {
            assert(head[j] == m[j - h.len() - 1]);
            assert(numeric::is_digit_char(m[j - h.len() - 1]));
        } else if j > h.len() + 1 + m.len() {
            assert(head[j] == s[j - h.len() - m.len() - 2]);
            assert(numeric::is_digit_char(s[j - h.len() - m.len() - 2]));
        }
    }
    assert forall|j: int| 0 <= j < n implies #[trigger] t[j] != '.' by {
        assert(t[j] == head[j]);
    }
    assert(t[n] == '.');
    text::char_pos_is(head, '.', 0, n);
    text::char_pos_is(t, '.', 0, n);
    assert(head.take(n) =~= head);
    assert(t.take(n) =~= head);
    assert(t.skip(n + 1) =~= f);
}

/// A time of day has an hour below 24.
pub proof fn days_have_24_hours(t: Seq<char>)
    ensures
        clock_of(t) matches Some((h, _, _, _)) && h < 24 ==> day_clock_of(t) == clock_of(t),
        clock_of(t) matches Some((h, _, _, _)) && h >= 24 ==> day_clock_of(t) is None,
        clock_of(t) is None ==> day_clock_of(t) is None,
{
}

/// `y-m-d` is a date at midnight; a blank or a `T` and a time of day behind it give
/// its clock time, and anything else there is refused.
pub proof fn dates_are_read(
    y: Seq<char>,
    m: Seq<char>,
    d: Seq<char>,
    sep: char,
    clock: Seq<char>,
)
    requires
        numeric::all_digits(y),
        numeric::all_digits(m),
        numeric::all_digits(d),
        numeric::digits_value(y) <= 65535,
        numeric::digits_value(m) <= 255,
        numeric::digits_value(d) <= 255,
        sep == ' ' || sep == 'T',
        clock.len() > 0,
        !text::space(clock.last()),
    ensures
        datetime_of(y + seq!['-'] + m + seq!['-'] + d) == Some(
            BinaryView::DateTime {
                year: numeric::digits_value(y) as u16,
                month: numeric::digits_value(m) as u8,
                day: numeric::digits_value(d) as u8,
                hour: 0,
                minute: 0,
                second: 0,
                micros: 0,
            },
        ),
        datetime_of(y + seq!['-'] + m + seq!['-'] + d + seq![sep] + clock) == match day_clock_of(
            clock,
        ) {
            Some((h, mi, s, us)) => Some(
                BinaryView::DateTime {
                    year: numeric::digits_value(y) as u16,
                    month: numeric::digits_value(m) as u8,
                    day: numeric::digits_value(d) as u8,
                    hour: h as u8,
                    minute: mi as u8,
                    second: s as u8,
                    micros: us as u32,
                },
            ),
            None => None,
        },
{
    let date = y + seq!['-'] + m + seq!['-'] + d;
    let s = date + seq![sep] + clock;
    let n = date.len() as int;
    assert(numeric::is_digit_char(y[0]) && numeric::is_digit_char(m[0]) && numeric::is_digit_char(
        d[0],
    ) && numeric::is_digit_char(d[d.len() - 1]));
    three_numbers_read(y, m, d, '-', (0xffff, 0xff, 0xff));
    assert forall|j: int| 0 <= j < n implies #[trigger] date[j] != ' ' && date[j] != 'T' by {
        if j < y.len() {
            assert(date[j] == y[j]);
            assert(numeric::is_digit_char(y[j]));
        } else if y.len() < j < y.len() + 1 + m.len() {
            assert(date[j] == m[j - y.len() - 1]);
            assert(numeric::is_digit_char(m[j - y.len() - 1]));
        } else if j > y.len() + 1 + m.len() {
            assert(date[j] == d[j - y.len() - m.len() - 2]);
            assert(numeric::is_digit_char(d[j - y.len() - m.len() - 2]));
        }
    }
    assert forall|j: int| 0 <= j < n implies #[trigger] s[j] != ' ' && s[j] != 'T' by {
        assert(s[j] == date[j]);
    }
    assert(date[0] == y[0] && s[0] == y[0]);
    assert(date.last() == d[d.len() - 1]);
    assert(s.last() == clock.last());
    trimmed_is_same(date);
    trimmed_is_same(s);
    time_pos_is(date, 0, n);
    time_pos_at(s, 0, n);
    assert(date.take(n) =~= date);
    assert(s.take(n) =~= date);
    assert(s.skip(n + 1) =~= clock);
}

proof fn time_pos_at(s: Seq<char>, i: int, at: int)
    requires
        0 <= i <= at < s.len(),
        forall|j: int| i <= j < at ==> #[trigger] s[j] != ' ' && s[j] != 'T',
        s[at] == ' ' || s[at] == 'T',
    ensures
        time_pos(s, i) == at,
    decreases at - i,
{
    if i < at {
        time_pos_at(s, i + 1, at);
    }
}

/// A duration is a clock time whose hours make days of 24, with a `-` in front where
/// it is negative.
pub proof fn durations_are_read(clock: Seq<char>)
    requires
        clock.len() > 0,
        clock[0] != '-',
        !text::space(clock[0]),
        !text::space(clock.last()),
    ensures
        match clock_of(clock) {
            Some((h, m, s, us)) => {
                &&& time_of(clock) == Some(
                    BinaryView::Time {
                        negative: false,
                        days: (h / 24) as u32,
                        hour: (h % 24) as u8,
                        minute: m as u8,
                        second: s as u8,
                        micros: us as u32,
                    },
                )
                &&& time_of(seq!['-'] + clock) == Some(
                    BinaryView::Time {
                        negative: true,
                        days: (h / 24) as u32,
                        hour: (h % 24) as u8,
                        minute: m as u8,
                        second: s as u8,
                        micros: us as u32,
                    },
                )
            },
            None => time_of(clock) is None && time_of(seq!['-'] + clock) is None,
        },
{
    let s = seq!['-'] + clock;
    assert(s.last() == clock.last());
    assert(s.skip(1) =~= clock);
    trimmed_is_same(clock);
    trimmed_is_same(s);
}

/// A date is written as four digits of the year, two of the month and two of the day,
/// with `-` between them; a clock time as two digits each, with `:` between them, and
/// six digits of a fraction behind a `.` where there is one.
pub proof fn texts_are_laid_out(year: u16, month: u8, day: u8, h: nat, m: u8, s: u8, us: u32)
    requires
        year < 10000,
        month < 100,
        day < 100,
        h < 100,
        m < 100,
        s < 100,
        us < 1000000,
    ensures
        ({
            let d = date_text(year, month, day);
            &&& d.len() == 10
            &&& numeric::digits_value(d.subrange(0, 4)) == year
            &&& d[4] == '-'
            &&& numeric::digits_value(d.subrange(5, 7)) == month
            &&& d[7] == '-'
            &&& numeric::digits_value(d.subrange(8, 10)) == day
        }),
        ({
            let c = clock_text(h, m, s, us);
            &&& c.len() == if us == 0 {
                8int
            } else {
                15
            }
            &&& numeric::digits_value(c.subrange(0, 2)) == h
            &&& c[2] == ':'
            &&& numeric::digits_value(c.subrange(3, 5)) == m
            &&& c[5] == ':'
            &&& numeric::digits_value(c.subrange(6, 8)) == s
            &&& us != 0 ==> c[8] == '.' && numeric::digits_value(c.subrange(9, 15)) == us
        }),
{
    reveal_with_fuel(ten_to, 7);
    decimal_length(year as nat, 4);
    decimal_length(month as nat, 2);
    decimal_length(day as nat, 2);
    decimal_length(h, 2);
    decimal_length(m as nat, 2);
    decimal_length(s as nat, 2);
    decimal_length(us as nat, 6);
    let a = numeric::padded(year as nat, 4);
    let b = numeric::padded(month as nat, 2);
    let c = numeric::padded(day as nat, 2);
    let d = date_text(year, month, day);
    numeric::padded_reads_back(year as nat, 4, 0xffff);
    numeric::padded_reads_back(month as nat, 2, 0xff);
    numeric::padded_reads_back(day as nat, 2, 0xff);
    assert(a.len() == 4 && b.len() == 2 && c.len() == 2);
    assert(d.subrange(0, 4) =~= a);
    assert(d.subrange(5, 7) =~= b);
    assert(d.subrange(8, 10) =~= c);
    let x = numeric::padded(h, 2);
    let y = numeric::padded(m as nat, 2);
    let z = numeric::padded(s as nat, 2);
    let f = numeric::padded(us as nat, 6);
    let t = clock_text(h, m, s, us);
    numeric::padded_reads_back(h, 2, 0xff);
    numeric::padded_reads_back(m as nat, 2, 0xff);
    numeric::padded_reads_back(s as nat, 2, 0xff);
    numeric::padded_reads_back(us as nat, 6, us as nat);
    assert(x.len() == 2 && y.len() == 2 && z.len() == 2 && f.len() == 6);
    assert(t.subrange(0, 2) =~= x);
    assert(t.subrange(3, 5) =~= y);
    assert(t.subrange(6, 8) =~= z);
    if us != 0 {
        assert(t.subrange(9, 15) =~= f);
    }
}

/// Midnight is left out of a date and time, and a duration counts its days as hours.
pub proof fn midnight_is_left_out(
    year: u16,
    month: u8,
    day: u8,
    hour: u8,
    minute: u8,
    second: u8,
    us: u32,
    days: u32,
)
    ensures
        datetime_text(year, month, day, 0, 0, 0, 0) == date_text(year, month, day),
        hour != 0 || minute != 0 || second != 0 || us != 0 ==> datetime_text(
            year,
            month,
            day,
            hour,
            minute,
            second,
            us,
        ) == date_text(year, month, day) + seq![' '] + clock_text(hour as nat, minute, second, us),
        time_text(false, days, hour, minute, second, us) == clock_text(
            (24 * days + hour) as nat,
            minute,
            second,
            us,
        ),
        time_text(true, days, hour, minute, second, us) == seq!['-'] + clock_text(
            (24 * days + hour) as nat,
            minute,
            second,
            us,
        ),
{
    let c = clock_text((24 * days + hour) as nat, minute, second, us);
    assert(days * 24 + hour == 24 * days + hour);
    assert(Seq::<char>::empty() + c =~= c);
}

} // verus!
