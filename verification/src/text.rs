//! Text as sequences of characters.
//!
//! SQL text is examined character by character throughout this crate. The
//! functions here work on `&[char]` and state what they compute over
//! `Seq<char>`; [`chars_of`] and [`string_of`] convert from and to strings.

use vstd::prelude::*;

verus! {

/// `String::push` appends the given character to the end of the string.
pub assume_specification[ String::push ](s: &mut String, c: char)
    ensures
        final(s)@ == old(s)@.push(c),
;

/// `std::str::from_utf8` accepts exactly the byte strings that are valid UTF-8,
/// and gives the text that they encode.
#[verifier::external_body]
pub(crate) fn decode_str(bytes: &[u8]) -> (r: Option<String>)
    ensures
        match r {
            Some(s) => vstd::utf8::valid_utf8(bytes@) && s@ == vstd::utf8::decode_utf8(bytes@),
            None => !vstd::utf8::valid_utf8(bytes@),
        },
{
    match std::str::from_utf8(bytes) {
        Ok(s) => Some(s.to_owned()),
        Err(_) => None,
    }
}

/// What `String::from_utf8_lossy` makes of bytes: the text that they encode, with
/// U+FFFD in place of what is not UTF-8.
pub uninterp spec fn utf8_lossy(bytes: Seq<u8>) -> Seq<char>;

/// `String::from_utf8_lossy` decodes bytes as UTF-8 and puts U+FFFD in place of
/// the sequences that are not; bytes that are valid UTF-8 give the text that they
/// encode. How long a replaced sequence is, is left unsaid.
#[verifier::external_body]
pub(crate) fn decode_lossy(bytes: &[u8]) -> (s: String)
    ensures
        s@ == utf8_lossy(bytes@),
        vstd::utf8::valid_utf8(bytes@) ==> s@ == vstd::utf8::decode_utf8(bytes@),
{
    String::from_utf8_lossy(bytes).into_owned()
}

/// The text that bytes encode, with U+FFFD in place of what is not UTF-8.
pub open spec fn lossy_text(bytes: Seq<u8>) -> Seq<char> {
    if vstd::utf8::valid_utf8(bytes) {
        vstd::utf8::decode_utf8(bytes)
    } else {
        utf8_lossy(bytes)
    }
}

/// ASCII bytes as characters.
pub open spec fn ascii_chars(bytes: Seq<u8>) -> Seq<char> {
    bytes.map_values(|b: u8| b as char)
}

/// The text of ASCII bytes.
pub fn ascii_text(bytes: &[u8]) -> (v: Vec<char>)
    ensures
        v@ == ascii_chars(bytes@),
{
    let mut v: Vec<char> = Vec::new();
    for i in 0..bytes.len()
        invariant
            v@ == ascii_chars(bytes@).take(i as int),
    {
        v.push(bytes[i] as char);
    }
    v
}

/// The characters of `s`, in order.
pub fn chars_of(s: &str) -> (v: Vec<char>)
    ensures
        v@ == s@,
{
    let mut v: Vec<char> = Vec::new();
    for c in it: s.chars()
        invariant
            v@ == it.seq().take(it.index()),
            it.seq() == s@,
    {
        v.push(c);
    }
    v
}

/// The string made of `chars`, in order.
pub fn string_of(chars: &[char]) -> (s: String)
    ensures
        s@ == chars@,
{
    let mut s = String::new();
    for i in 0..chars.len()
        invariant
            s@ == chars@.take(i as int),
    {
        s.push(chars[i]);
    }
    s
}

/// A copy of `chars`.
pub fn copy_chars(chars: &[char]) -> (v: Vec<char>)
    ensures
        v@ == chars@,
{
    let mut v: Vec<char> = Vec::new();
    for i in 0..chars.len()
        invariant
            v@ == chars@.take(i as int),
    {
        v.push(chars[i]);
    }
    v
}

/// Whether two pieces of text are the same.
pub fn same(a: &[char], b: &[char]) -> (r: bool)
    ensures
        r == (a@ == b@),
{
    if a.len() != b.len() {
        return false;
    }
    for i in 0..a.len()
        invariant
            a.len() == b.len(),
            forall|j: int| 0 <= j < i ==> a@[j] == b@[j],
    {
        if a[i] != b[i] {
            assert(a@[i as int] != b@[i as int]);
            return false;
        }
    }
    assert(a@ =~= b@);
    true
}

/// Whether `s` is the text `t`.
pub fn is_text(s: &[char], t: &str) -> (r: bool)
    ensures
        r == (s@ == t@),
{
    same(s, &chars_of(t))
}

// ---------------------------------------------------------------------------
// Whitespace
// ---------------------------------------------------------------------------
/// The characters with Unicode's `White_Space` property.
pub open spec fn space(c: char) -> bool {
    ||| '\u{9}' <= c <= '\u{d}'
    ||| c == ' '
    ||| c == '\u{85}'
    ||| c == '\u{a0}'
    ||| c == '\u{1680}'
    ||| '\u{2000}' <= c <= '\u{200a}'
    ||| c == '\u{2028}'
    ||| c == '\u{2029}'
    ||| c == '\u{202f}'
    ||| c == '\u{205f}'
    ||| c == '\u{3000}'
}

/// Whether `c` is white space.
pub fn is_space(c: char) -> (r: bool)
    ensures
        r == space(c),
{
    ('\u{9}' <= c && c <= '\u{d}') || c == ' ' || c == '\u{85}' || c == '\u{a0}' || c == '\u{1680}'
        || ('\u{2000}' <= c && c <= '\u{200a}') || c == '\u{2028}' || c == '\u{2029}' || c
        == '\u{202f}' || c == '\u{205f}' || c == '\u{3000}'
}

/// `s` without its leading white space.
pub open spec fn trimmed_start(s: Seq<char>) -> Seq<char>
    decreases s.len(),
{
    if s.len() > 0 && space(s[0]) {
        trimmed_start(s.drop_first())
    } else {
        s
    }
}

/// `s` without its trailing white space.
pub open spec fn trimmed_end(s: Seq<char>) -> Seq<char>
    decreases s.len(),
{
    if s.len() > 0 && space(s.last()) {
        trimmed_end(s.drop_last())
    } else {
        s
    }
}

/// `s` without white space at either end.
pub open spec fn trimmed(s: Seq<char>) -> Seq<char> {
    trimmed_end(trimmed_start(s))
}

/// `s` without the copies of `c` that it ends in.
pub open spec fn trimmed_end_of(s: Seq<char>, c: char) -> Seq<char>
    decreases s.len(),
{
    if s.len() > 0 && s.last() == c {
        trimmed_end_of(s.drop_last(), c)
    } else {
        s
    }
}

/// Drops leading white space.
pub fn trim_start(s: &[char]) -> (r: &[char])
    ensures
        r@ == trimmed_start(s@),
{
    let mut i: usize = 0;
    assert(s@.skip(0) =~= s@);
    while i < s.len() && is_space(s[i])
        invariant
            i <= s.len(),
            trimmed_start(s@) == trimmed_start(s@.skip(i as int)),
        decreases s.len() - i,
    {
        assert(s@.skip(i as int).drop_first() =~= s@.skip(i + 1));
        i = i + 1;
    }
    let r = &s[i..s.len()];
    assert(r@ =~= s@.skip(i as int));
    r
}

/// Drops trailing white space.
pub fn trim_end(s: &[char]) -> (r: &[char])
    ensures
        r@ == trimmed_end(s@),
{
    let mut n: usize = s.len();
    assert(s@.take(n as int) =~= s@);
    while n > 0 && is_space(s[n - 1])
        invariant
            n <= s.len(),
            trimmed_end(s@) == trimmed_end(s@.take(n as int)),
        decreases n,
    {
        assert(s@.take(n as int).drop_last() =~= s@.take(n - 1));
        n = n - 1;
    }
    let r = &s[0..n];
    assert(r@ =~= s@.take(n as int));
    r
}

/// Drops white space at both ends.
pub fn trim(s: &[char]) -> (r: &[char])
    ensures
        r@ == trimmed(s@),
{
    trim_end(trim_start(s))
}

/// Drops the copies of `c` at the end.
pub fn trim_end_of(s: &[char], c: char) -> (r: &[char])
    ensures
        r@ == trimmed_end_of(s@, c),
{
    let mut n: usize = s.len();
    assert(s@.take(n as int) =~= s@);
    while n > 0 && s[n - 1] == c
        invariant
            n <= s.len(),
            trimmed_end_of(s@, c) == trimmed_end_of(s@.take(n as int), c),
        decreases n,
    {
        assert(s@.take(n as int).drop_last() =~= s@.take(n - 1));
        n = n - 1;
    }
    let r = &s[0..n];
    assert(r@ =~= s@.take(n as int));
    r
}

// ---------------------------------------------------------------------------
// Letter case
// ---------------------------------------------------------------------------
/// The ASCII lower case of a character; other characters stay as they are.
pub open spec fn lower_char(c: char) -> char {
    if 'A' <= c <= 'Z' {
        (c as u32 + 32) as char
    } else {
        c
    }
}

/// The ASCII upper case of a character; other characters stay as they are.
pub open spec fn upper_char(c: char) -> char {
    if 'a' <= c <= 'z' {
        (c as u32 - 32) as char
    } else {
        c
    }
}

/// `s` in ASCII lower case.
pub open spec fn lowered(s: Seq<char>) -> Seq<char> {
    s.map_values(|c: char| lower_char(c))
}

/// `s` in ASCII upper case.
pub open spec fn uppered(s: Seq<char>) -> Seq<char> {
    s.map_values(|c: char| upper_char(c))
}

/// The two are the same text but for the case of ASCII letters.
pub open spec fn fold_eq(a: Seq<char>, b: Seq<char>) -> bool {
    lowered(a) == lowered(b)
}

/// The ASCII lower case of `c`.
pub fn to_lower_char(c: char) -> (r: char)
    ensures
        r == lower_char(c),
{
    if 'A' <= c && c <= 'Z' {
        ((c as u8) + 32) as char
    } else {
        c
    }
}

/// The ASCII upper case of `c`.
pub fn to_upper_char(c: char) -> (r: char)
    ensures
        r == upper_char(c),
{
    if 'a' <= c && c <= 'z' {
        ((c as u8) - 32) as char
    } else {
        c
    }
}

/// `s` in ASCII lower case.
pub fn to_lower(s: &[char]) -> (r: Vec<char>)
    ensures
        r@ == lowered(s@),
{
    let mut r: Vec<char> = Vec::new();
    for i in 0..s.len()
        invariant
            r@ == lowered(s@).take(i as int),
    {
        r.push(to_lower_char(s[i]));
    }
    r
}

/// `s` in ASCII upper case.
pub fn to_upper(s: &[char]) -> (r: Vec<char>)
    ensures
        r@ == uppered(s@),
{
    let mut r: Vec<char> = Vec::new();
    for i in 0..s.len()
        invariant
            r@ == uppered(s@).take(i as int),
    {
        r.push(to_upper_char(s[i]));
    }
    r
}

/// Whether two pieces of text differ at most in the case of ASCII letters.
pub fn eq_fold(a: &[char], b: &[char]) -> (r: bool)
    ensures
        r == fold_eq(a@, b@),
{
    if a.len() != b.len() {
        assert(lowered(a@).len() != lowered(b@).len());
        return false;
    }
    for i in 0..a.len()
        invariant
            a.len() == b.len(),
            forall|j: int| 0 <= j < i ==> lower_char(a@[j]) == lower_char(b@[j]),
    {
        if to_lower_char(a[i]) != to_lower_char(b[i]) {
            assert(lowered(a@)[i as int] != lowered(b@)[i as int]);
            return false;
        }
    }
    assert(lowered(a@) =~= lowered(b@));
    true
}

// ---------------------------------------------------------------------------
// Searching
// ---------------------------------------------------------------------------
/// The first position from `from` on that holds `c`, or the length of `s`.
pub open spec fn char_pos(s: Seq<char>, c: char, from: int) -> int
    decreases s.len() - from,
{
    if from >= s.len() {
        s.len() as int
    } else if s[from] == c {
        from
    } else {
        char_pos(s, c, from + 1)
    }
}

pub proof fn char_pos_is(s: Seq<char>, c: char, from: int, at: int)
    requires
        0 <= from <= at <= s.len(),
        forall|j: int| from <= j < at ==> #[trigger] s[j] != c,
        at < s.len() ==> s[at] == c,
    ensures
        char_pos(s, c, from) == at,
    decreases at - from,
{
    if from < at {
        char_pos_is(s, c, from + 1, at);
    }
}

pub proof fn char_pos_bounds(s: Seq<char>, c: char, from: int)
    ensures
        from <= s.len() ==> from <= char_pos(s, c, from) <= s.len(),
    decreases s.len() - from,
{
    if from < s.len() && s[from] != c {
        char_pos_bounds(s, c, from + 1);
    }
}

/// Finds the first `c` from position `from` on; the length of `s` if there is none.
pub fn find_char(s: &[char], c: char, from: usize) -> (r: usize)
    requires
        from <= s.len(),
    ensures
        r == char_pos(s@, c, from as int),
        from <= r <= s.len(),
        r < s.len() ==> s@[r as int] == c,
        forall|j: int| from <= j < r ==> s@[j] != c,
{
    let mut i: usize = from;
    while i < s.len() && s[i] != c
        invariant
            from <= i <= s.len(),
            char_pos(s@, c, from as int) == char_pos(s@, c, i as int),
            forall|j: int| from <= j < i ==> s@[j] != c,
        decreases s.len() - i,
    {
        i = i + 1;
    }
    i
}

/// The piece `p` stands in `s` at position `i`.
pub open spec fn occurs_at(s: Seq<char>, p: Seq<char>, i: int) -> bool {
    0 <= i && i + p.len() <= s.len() && s.subrange(i, i + p.len()) == p
}

/// The piece `p` stands somewhere in `s`.
pub open spec fn occurs(s: Seq<char>, p: Seq<char>) -> bool {
    exists|i: int| occurs_at(s, p, i)
}

/// Whether `p` stands in `s` at position `i`.
pub fn is_at(s: &[char], p: &[char], i: usize) -> (r: bool)
    requires
        i <= s.len(),
    ensures
        r == occurs_at(s@, p@, i as int),
{
    if p.len() > s.len() - i {
        return false;
    }
    let r = same(&s[i..i + p.len()], p);
    r
}

/// Whether `p` stands somewhere in `s`.
pub fn contains(s: &[char], p: &[char]) -> (r: bool)
    ensures
        r == occurs(s@, p@),
{
    let mut i: usize = 0;
    while i < s.len()
        invariant
            i <= s.len(),
            forall|j: int| 0 <= j < i ==> !occurs_at(s@, p@, j),
        decreases s.len() - i,
    {
        if is_at(s, p, i) {
            return true;
        }
        i = i + 1;
    }
    let r = is_at(s, p, i);
    assert(!r ==> forall|j: int| !occurs_at(s@, p@, j));
    r
}

/// `s` without the prefix `p`, if it has it.
pub fn strip_prefix<'a>(s: &'a [char], p: &[char]) -> (r: Option<&'a [char]>)
    ensures
        match r {
            Some(rest) => occurs_at(s@, p@, 0) && rest@ == s@.skip(p@.len() as int),
            None => !occurs_at(s@, p@, 0),
        },
{
    if is_at(s, p, 0) {
        Some(&s[p.len()..s.len()])
    } else {
        None
    }
}

/// `s` without its first character, if that is `c`.
pub fn strip_first(s: &[char], c: char) -> (r: Option<&[char]>)
    ensures
        match r {
            Some(rest) => s@.len() > 0 && s@[0] == c && rest@ == s@.skip(1),
            None => s@.len() == 0 || s@[0] != c,
        },
{
    if s.len() > 0 && s[0] == c {
        Some(&s[1..s.len()])
    } else {
        None
    }
}

/// `s` without its last character, if that is `c`.
pub fn strip_last(s: &[char], c: char) -> (r: Option<&[char]>)
    ensures
        match r {
            Some(rest) => s@.len() > 0 && s@.last() == c && rest@ == s@.drop_last(),
            None => s@.len() == 0 || s@.last() != c,
        },
{
    if s.len() > 0 && s[s.len() - 1] == c {
        Some(&s[0..s.len() - 1])
    } else {
        None
    }
}

// ---------------------------------------------------------------------------
// Building
// ---------------------------------------------------------------------------
/// Appends `s`.
pub fn push_chars(out: &mut Vec<char>, s: &[char])
    ensures
        final(out)@ == old(out)@ + s@,
{
    let ghost before = out@;
    for i in 0..s.len()
        invariant
            out@ == before + s@.take(i as int),
    {
        out.push(s[i]);
        assert(s@.take(i + 1) =~= s@.take(i as int).push(s@[i as int]));
    }
    assert(s@.take(s.len() as int) =~= s@);
}

/// Appends the characters of `s`.
pub fn push_text(out: &mut Vec<char>, s: &str)
    ensures
        final(out)@ == old(out)@ + s@,
{
    let chars = chars_of(s);
    push_chars(out, &chars);
}

// ---------------------------------------------------------------------------
// Doubled quotes
// ---------------------------------------------------------------------------
/// `s` with every `q` written twice.
pub open spec fn doubled(s: Seq<char>, q: char) -> Seq<char>
    decreases s.len(),
{
    if s.len() == 0 {
        seq![]
    } else if s[0] == q {
        seq![q, q] + doubled(s.skip(1), q)
    } else {
        seq![s[0]] + doubled(s.skip(1), q)
    }
}

/// `s` with every pair of adjacent `q`s, read from the left, written once.
pub open spec fn undoubled(s: Seq<char>, q: char) -> Seq<char>
    decreases s.len(),
{
    if s.len() == 0 {
        seq![]
    } else if s.len() >= 2 && s[0] == q && s[1] == q {
        seq![q] + undoubled(s.skip(2), q)
    } else {
        seq![s[0]] + undoubled(s.skip(1), q)
    }
}

/// Doubling every quote is undone by reading each pair of quotes as one.
pub proof fn doubling_is_undone(s: Seq<char>, q: char)
    ensures
        undoubled(doubled(s, q), q) == s,
    decreases s.len(),
{
    if s.len() > 0 {
        let rest = doubled(s.skip(1), q);
        doubling_is_undone(s.skip(1), q);
        let d = doubled(s, q);
        if s[0] == q {
            assert(d.skip(2) =~= rest);
            assert(undoubled(d, q) == seq![q] + undoubled(rest, q));
        } else {
            assert(d.skip(1) =~= rest);
            assert(d[0] == s[0]);
            assert(undoubled(d, q) == seq![s[0]] + undoubled(rest, q));
        }
        assert(seq![s[0]] + s.skip(1) =~= s);
    }
}

/// Writes every `q` of `s` twice.
pub fn double(s: &[char], q: char) -> (r: Vec<char>)
    ensures
        r@ == doubled(s@, q),
{
    let mut r: Vec<char> = Vec::new();
    let mut i: usize = 0;
    assert(s@.skip(0) =~= s@);
    while i < s.len()
        invariant
            i <= s.len(),
            r@ + doubled(s@.skip(i as int), q) == doubled(s@, q),
        decreases s.len() - i,
    {
        let ghost t = s@.skip(i as int);
        assert(t.skip(1) =~= s@.skip(i + 1));
        let ghost before = r@;
        r.push(s[i]);
        if s[i] == q {
            r.push(q);
            assert(before + (seq![q, q] + doubled(t.skip(1), q)) =~= r@ + doubled(t.skip(1), q));
        } else {
            assert(before + (seq![t[0]] + doubled(t.skip(1), q)) =~= r@ + doubled(t.skip(1), q));
        }
        i = i + 1;
    }
    assert(r@ + doubled(s@.skip(i as int), q) =~= r@);
    r
}

/// Writes every pair of adjacent `q`s of `s` once.
pub fn undouble(s: &[char], q: char) -> (r: Vec<char>)
    ensures
        r@ == undoubled(s@, q),
{
    let mut r: Vec<char> = Vec::new();
    let mut i: usize = 0;
    assert(s@.skip(0) =~= s@);
    while i < s.len()
        invariant
            i <= s.len(),
            r@ + undoubled(s@.skip(i as int), q) == undoubled(s@, q),
        decreases s.len() - i,
    {
        let ghost t = s@.skip(i as int);
        let ghost before = r@;
        r.push(s[i]);
        if s[i] == q && s.len() - i >= 2 && s[i + 1] == q {
            assert(t.skip(2) =~= s@.skip(i + 2));
            assert(before + (seq![q] + undoubled(t.skip(2), q)) =~= r@ + undoubled(t.skip(2), q));
            i = i + 2;
        } else {
            assert(t.skip(1) =~= s@.skip(i + 1));
            assert(before + (seq![t[0]] + undoubled(t.skip(1), q)) =~= r@ + undoubled(
                t.skip(1),
                q,
            ));
            i = i + 1;
        }
    }
    assert(r@ + undoubled(s@.skip(i as int), q) =~= r@);
    r
}

// ---------------------------------------------------------------------------
// Lines and lists
// ---------------------------------------------------------------------------
/// A line without the carriage return that it may end in.
pub open spec fn without_return(line: Seq<char>) -> Seq<char> {
    if line.len() > 0 && line.last() == '\r' {
        line.drop_last()
    } else {
        line
    }
}

/// The lines of `s` from position `i` on. A line ends at a line feed, with a
/// carriage return just before it or not; the last one may end with the text.
pub open spec fn lines_from(s: Seq<char>, i: int) -> Seq<Seq<char>>
    decreases s.len() - i,
{
    if i >= s.len() || i < 0 {
        seq![]
    } else {
        let end = char_pos(s, '\n', i);
        proof {
            char_pos_bounds(s, '\n', i);
        }
        if end < s.len() {
            seq![without_return(s.subrange(i, end))] + lines_from(s, end + 1)
        } else {
            seq![s.subrange(i, end)]
        }
    }
}

/// Splits text into lines.
pub fn split_lines(s: &str) -> (r: Vec<String>)
    ensures
        r.deep_view() == lines_from(s@, 0),
{
    let chars = chars_of(s);
    let mut lines: Vec<String> = Vec::new();
    let mut i: usize = 0;
    assert(lines.deep_view() + lines_from(s@, 0) =~= lines_from(s@, 0));
    while i < chars.len()
        invariant
            chars@ == s@,
            i <= chars@.len(),
            lines.deep_view() + lines_from(s@, i as int) == lines_from(s@, 0),
        decreases chars@.len() - i,
    {
        let ghost before = lines.deep_view();
        let end: usize = find_char(&chars, '\n', i);
        if end < chars.len() {
            let line = match strip_last(&chars[i..end], '\r') {
                Some(rest) => string_of(rest),
                None => string_of(&chars[i..end]),
            };
            lines.push(line);
            assert(lines.deep_view() =~= before.push(line@));
            assert(before + (seq![line@] + lines_from(s@, end + 1)) =~= lines.deep_view()
                + lines_from(s@, end + 1));
            i = end + 1;
        } else {
            let line = string_of(&chars[i..end]);
            lines.push(line);
            assert(lines.deep_view() =~= before.push(line@));
            assert(before + seq![line@] =~= lines.deep_view());
            i = end;
            assert(lines.deep_view() + lines_from(s@, i as int) =~= lines.deep_view());
        }
    }
    assert(lines.deep_view() + lines_from(s@, i as int) =~= lines.deep_view());
    lines
}

/// What stands behind a text is searched as if it stood alone.
proof fn char_pos_behind(front: Seq<char>, s: Seq<char>, c: char, i: int)
    requires
        0 <= i <= s.len(),
    ensures
        char_pos(front + s, c, front.len() + i) == front.len() + char_pos(s, c, i),
    decreases s.len() - i,
{
    if i < s.len() {
        assert((front + s)[front.len() + i] == s[i]);
        if s[i] != c {
            char_pos_behind(front, s, c, i + 1);
        }
    }
}

/// What stands in front of a text is searched as if it stood alone, as long as `c`
/// is found in it or comes right behind it.
proof fn char_pos_in_front(s: Seq<char>, back: Seq<char>, c: char, i: int)
    requires
        0 <= i <= s.len(),
        back.len() > 0,
        back[0] == c,
    ensures
        char_pos(s + back, c, i) == char_pos(s, c, i),
        char_pos(s, c, i) == s.len() ==> forall|j: int| i <= j < s.len() ==> #[trigger] s[j] != c,
    decreases s.len() - i,
{
    let t = s + back;
    if i < s.len() {
        assert(t[i] == s[i]);
        char_pos_in_front(s, back, c, i + 1);
        char_pos_bounds(s, c, i + 1);
    } else {
        assert(t[i] == back[0]);
    }
}

/// The lines behind a text are those that they would be alone.
proof fn lines_behind(front: Seq<char>, s: Seq<char>, i: int)
    requires
        0 <= i <= s.len(),
    ensures
        lines_from(front + s, front.len() + i) == lines_from(s, i),
    decreases s.len() - i,
{
    if i < s.len() {
        let n = front.len();
        let end = char_pos(s, '\n', i);
        char_pos_bounds(s, '\n', i);
        char_pos_behind(front, s, '\n', i);
        assert((front + s).subrange(n + i, n + end) =~= s.subrange(i, end));
        if end < s.len() {
            lines_behind(front, s, end + 1);
        }
    }
}

/// The lines of a text that a line feed ends: its own, and an empty one if it had
/// none or ended in a line feed itself.
proof fn lines_in_front(a: Seq<char>, back: Seq<char>, i: int)
    requires
        0 <= i <= a.len(),
        a.len() == 0 || a.last() != '\r',
        back.len() > 0,
        back[0] == '\n',
    ensures
        lines_from(a + back, i) == lines_from(a, i) + (if i == a.len() || a.last() == '\n' {
            seq![Seq::<char>::empty()]
        } else {
            seq![]
        }) + lines_from(a + back, a.len() as int + 1),
    decreases a.len() - i,
{
    let s = a + back;
    let rest = lines_from(s, a.len() as int + 1);
    let end = char_pos(a, '\n', i);
    char_pos_bounds(a, '\n', i);
    char_pos_in_front(a, back, '\n', i);
    assert(s.subrange(i, end) =~= a.subrange(i, end));
    let line = a.subrange(i, end);
    assert(lines_from(s, i) == seq![without_return(line)] + lines_from(s, end + 1));
    if i == a.len() {
        assert(line =~= seq![]);
        assert(lines_from(s, i) =~= seq![] + seq![Seq::<char>::empty()] + rest);
    } else if end < a.len() {
        lines_in_front(a, back, end + 1);
        let behind = if a.last() == '\n' {
            seq![Seq::<char>::empty()]
        } else {
            seq![]
        };
        char_pos_hits(a, '\n', i);
        assert(lines_from(s, end + 1) == lines_from(a, end + 1) + behind + rest);
        assert(seq![without_return(line)] + (lines_from(a, end + 1) + behind + rest) =~= (
        seq![without_return(line)] + lines_from(a, end + 1)) + behind + rest);
    } else {
        assert(line.last() == a.last());
        assert(a[a.len() - 1] != '\n');
        assert(lines_from(a, i) =~= seq![line]);
        assert(lines_from(s, i) =~= seq![line] + seq![] + rest);
    }
}

proof fn char_pos_hits(s: Seq<char>, c: char, from: int)
    requires
        0 <= from,
        char_pos(s, c, from) < s.len(),
    ensures
        s[char_pos(s, c, from)] == c,
    decreases s.len() - from,
{
    if from < s.len() && s[from] != c {
        char_pos_hits(s, c, from + 1);
    }
}

/// The empty lines that two line feeds behind a text add.
pub open spec fn lines_added(a: Seq<char>) -> Seq<Seq<char>> {
    if a.len() == 0 || a.last() == '\n' {
        seq![seq![], seq![]]
    } else {
        seq![seq![]]
    }
}

/// Two texts with two line feeds between them have the lines of both, with one or
/// two empty ones between them.
pub proof fn lines_of_two(a: Seq<char>, b: Seq<char>)
    requires
        a.len() == 0 || a.last() != '\r',
    ensures
        lines_from(a + seq!['\n', '\n'] + b, 0) == lines_from(a, 0) + lines_added(a) + lines_from(
            b,
            0,
        ),
        lines_from(a + seq!['\n', '\n'], 0) == lines_from(a, 0) + lines_added(a),
{
    lines_behind_a_gap(a, b);
    lines_behind_a_gap(a, seq![]);
    assert(a + seq!['\n', '\n'] + Seq::<char>::empty() =~= a + seq!['\n', '\n']);
    assert(lines_from(a, 0) + lines_added(a) + Seq::<Seq<char>>::empty() =~= lines_from(a, 0)
        + lines_added(a));
}

proof fn lines_behind_a_gap(a: Seq<char>, b: Seq<char>)
    requires
        a.len() == 0 || a.last() != '\r',
    ensures
        lines_from(a + seq!['\n', '\n'] + b, 0) == lines_from(a, 0) + lines_added(a) + lines_from(
            b,
            0,
        ),
{
    let back = seq!['\n', '\n'] + b;
    let s = a + seq!['\n', '\n'] + b;
    let front = a + seq!['\n'];
    let tail = seq!['\n'] + b;
    assert(s =~= a + back);
    assert(s =~= front + tail);
    assert(tail =~= seq!['\n'] + b);
    lines_in_front(a, back, 0);
    lines_behind(front, tail, 0);
    lines_behind(seq!['\n'], b, 0);
    char_pos_is(tail, '\n', 0, 0);
    assert(tail.subrange(0, 0) =~= seq![]);
    assert(lines_from(tail, 0) == seq![Seq::<char>::empty()] + lines_from(b, 0));
    assert(lines_from(s, 0) =~= lines_from(a, 0) + lines_added(a) + lines_from(b, 0));
}

/// Pieces with `sep` between them.
pub open spec fn joined(pieces: Seq<Seq<char>>, sep: Seq<char>) -> Seq<char>
    decreases pieces.len(),
{
    if pieces.len() == 0 {
        seq![]
    } else if pieces.len() == 1 {
        pieces[0]
    } else {
        joined(pieces.drop_last(), sep) + sep + pieces.last()
    }
}

/// Puts `sep` between pieces.
pub fn join(pieces: &Vec<String>, sep: &str) -> (r: String)
    ensures
        r@ == joined(pieces.deep_view(), sep@),
{
    let mut out: Vec<char> = Vec::new();
    let ghost all = pieces.deep_view();
    assert(all.take(0) =~= seq![]);
    for i in 0..pieces.len()
        invariant
            all == pieces.deep_view(),
            out@ == joined(all.take(i as int), sep@),
    {
        proof {
            assert(all.take(i + 1).drop_last() =~= all.take(i as int));
            assert(all.take(i + 1).last() == pieces@[i as int]@);
        }
        if i > 0 {
            push_text(&mut out, sep);
        }
        push_text(&mut out, pieces[i].as_str());
        proof {
            if i == 0 {
                assert(out@ =~= pieces@[0]@);
            }
        }
    }
    assert(all.take(pieces@.len() as int) =~= all);
    string_of(&out)
}

/// The pieces of `s` from position `i` on, between one `c` and the next.
pub open spec fn pieces_from(s: Seq<char>, c: char, i: int) -> Seq<Seq<char>>
    decreases s.len() - i,
{
    if i < 0 || i > s.len() {
        seq![]
    } else {
        let end = char_pos(s, c, i);
        proof {
            char_pos_bounds(s, c, i);
        }
        if end < s.len() {
            seq![s.subrange(i, end)] + pieces_from(s, c, end + 1)
        } else {
            seq![s.subrange(i, end)]
        }
    }
}

/// Splits `s` at every `c`.
pub fn split_at_char(s: &[char], c: char) -> (r: Vec<String>)
    ensures
        r.deep_view() == pieces_from(s@, c, 0),
{
    let mut pieces: Vec<String> = Vec::new();
    let mut i: usize = 0;
    assert(pieces.deep_view() + pieces_from(s@, c, 0) =~= pieces_from(s@, c, 0));
    loop
        invariant
            i <= s@.len(),
            pieces.deep_view() + pieces_from(s@, c, i as int) == pieces_from(s@, c, 0),
        decreases s@.len() - i,
    {
        let ghost before = pieces.deep_view();
        let end: usize = find_char(s, c, i);
        let piece = string_of(&s[i..end]);
        pieces.push(piece);
        assert(pieces.deep_view() =~= before.push(piece@));
        if end < s.len() {
            assert(before + (seq![piece@] + pieces_from(s@, c, end + 1)) =~= pieces.deep_view()
                + pieces_from(s@, c, end + 1));
            i = end + 1;
        } else {
            assert(before + seq![piece@] =~= pieces.deep_view());
            return pieces;
        }
    }
}

// ---------------------------------------------------------------------------
// Words
// ---------------------------------------------------------------------------
/// The first white space from `i` on, or the end.
pub open spec fn space_pos(s: Seq<char>, i: int) -> int
    decreases s.len() - i,
{
    if i >= s.len() || i < 0 || space(s[i]) {
        i
    } else {
        space_pos(s, i + 1)
    }
}

/// The words of `s` from position `i` on: what stands between white space.
pub open spec fn words_from(s: Seq<char>, i: int) -> Seq<Seq<char>>
    decreases s.len() - i,
{
    if i >= s.len() || i < 0 {
        seq![]
    } else if space(s[i]) {
        words_from(s, i + 1)
    } else {
        proof {
            space_pos_bounds(s, i + 1);
        }
        seq![s.subrange(i, space_pos(s, i))] + words_from(s, space_pos(s, i))
    }
}

/// The words of `s`.
pub open spec fn words(s: Seq<char>) -> Seq<Seq<char>> {
    words_from(s, 0)
}

pub proof fn space_pos_bounds(s: Seq<char>, i: int)
    ensures
        i <= space_pos(s, i),
        i <= s.len() ==> space_pos(s, i) <= s.len(),
    decreases s.len() - i,
{
    if 0 <= i < s.len() && !space(s[i]) {
        space_pos_bounds(s, i + 1);
    }
}

/// Splits `s` at white space.
pub fn split_words(s: &[char]) -> (r: Vec<String>)
    ensures
        r.deep_view() == words(s@),
{
    let mut found: Vec<String> = Vec::new();
    let mut i: usize = 0;
    assert(found.deep_view() + words_from(s@, 0) =~= words(s@));
    while i < s.len()
        invariant
            i <= s@.len(),
            found.deep_view() + words_from(s@, i as int) == words(s@),
        decreases s@.len() - i,
    {
        if is_space(s[i]) {
            i = i + 1;
        } else {
            let start: usize = i;
            let ghost before = found.deep_view();
            while i < s.len() && !is_space(s[i])
                invariant
                    start <= i <= s@.len(),
                    start < s@.len(),
                    !space(s@[start as int]),
                    space_pos(s@, start as int) == space_pos(s@, i as int),
                decreases s@.len() - i,
            {
                i = i + 1;
            }
            proof {
                space_pos_bounds(s@, start + 1);
            }
            let word = string_of(&s[start..i]);
            found.push(word);
            assert(found.deep_view() =~= before.push(word@));
            assert(before + (seq![word@] + words_from(s@, i as int)) =~= found.deep_view()
                + words_from(s@, i as int));
        }
    }
    assert(found.deep_view() + words_from(s@, i as int) =~= found.deep_view());
    found
}

/// The last position up to `i` at which `p` stands in `s`; -1 if there is none.
pub open spec fn last_pos(s: Seq<char>, p: Seq<char>, i: int) -> int
    decreases i + 1,
{
    if i < 0 {
        -1
    } else if occurs_at(s, p, i) {
        i
    } else {
        last_pos(s, p, i - 1)
    }
}

/// Finds the last `p` in `s`.
pub fn find_last(s: &[char], p: &[char]) -> (r: Option<usize>)
    ensures
        match r {
            Some(i) => last_pos(s@, p@, s@.len() as int) == i && occurs_at(s@, p@, i as int),
            None => last_pos(s@, p@, s@.len() as int) == -1,
        },
{
    let mut i: usize = s.len();
    loop
        invariant
            i <= s@.len(),
            last_pos(s@, p@, s@.len() as int) == last_pos(s@, p@, i as int),
        decreases i,
    {
        if is_at(s, p, i) {
            return Some(i);
        }
        if i == 0 {
            assert(last_pos(s@, p@, -1) == -1);
            return None;
        }
        i = i - 1;
    }
}

/// `s` without the copies of `p` that it starts with.
pub open spec fn without_prefixes(s: Seq<char>, p: Seq<char>) -> Seq<char>
    decreases s.len(),
{
    if p.len() > 0 && occurs_at(s, p, 0) {
        without_prefixes(s.skip(p.len() as int), p)
    } else {
        s
    }
}

/// Drops the copies of `p` at the start.
pub fn trim_prefixes<'a>(s: &'a [char], p: &[char]) -> (r: &'a [char])
    ensures
        r@ == without_prefixes(s@, p@),
{
    let mut rest: &'a [char] = s;
    while p.len() > 0 && is_at(rest, p, 0)
        invariant
            without_prefixes(s@, p@) == without_prefixes(rest@, p@),
        decreases rest@.len(),
    {
        let next = &rest[p.len()..rest.len()];
        assert(next@ =~= rest@.skip(p@.len() as int));
        rest = next;
    }
    rest
}

/// `s` without the copies of `c` at its start.
pub open spec fn trimmed_start_of(s: Seq<char>, c: char) -> Seq<char>
    decreases s.len(),
{
    if s.len() > 0 && s[0] == c {
        trimmed_start_of(s.skip(1), c)
    } else {
        s
    }
}

/// Drops the copies of `c` at the start.
pub fn trim_start_of(s: &[char], c: char) -> (r: &[char])
    ensures
        r@ == trimmed_start_of(s@, c),
{
    let mut i: usize = 0;
    assert(s@.skip(0) =~= s@);
    while i < s.len() && s[i] == c
        invariant
            i <= s@.len(),
            trimmed_start_of(s@, c) == trimmed_start_of(s@.skip(i as int), c),
        decreases s@.len() - i,
    {
        assert(s@.skip(i as int).skip(1) =~= s@.skip(i + 1));
        i = i + 1;
    }
    let r = &s[i..s.len()];
    assert(r@ =~= s@.skip(i as int));
    r
}

/// Whether `char::is_alphanumeric` holds: the character is a letter or a number.
pub uninterp spec fn alphanumeric(c: char) -> bool;

/// `char::is_alphanumeric` says whether a character is a letter or a number by
/// the Unicode tables; of the ASCII characters these are the letters and the
/// decimal digits. Which characters beyond ASCII are, is left unsaid.
#[verifier::external_body]
pub(crate) fn is_alphanumeric(c: char) -> (r: bool)
    ensures
        r == alphanumeric(c),
        (c as u32) < 128 ==> r == ('0' <= c <= '9' || 'A' <= c <= 'Z' || 'a' <= c <= 'z'),
{
    c.is_alphanumeric()
}

/// A letter or a number.
pub open spec fn letter_or_digit(c: char) -> bool {
    if (c as u32) < 128 {
        '0' <= c <= '9' || 'A' <= c <= 'Z' || 'a' <= c <= 'z'
    } else {
        alphanumeric(c)
    }
}

// ---------------------------------------------------------------------------
// Laws
// ---------------------------------------------------------------------------
/// Of the ASCII characters, the blank and those from 9 to 13 are white space.
pub proof fn ascii_spaces(c: char)
    requires
        (c as u32) < 128,
    ensures
        space(c) <==> (c as u32 == 32 || 9 <= c as u32 <= 13),
{
}

proof fn start_is_dropped(s: Seq<char>)
    ensures
        exists|i: int|
            0 <= i <= s.len() && #[trigger] s.skip(i) == trimmed_start(s) && (forall|k: int|
                0 <= k < i ==> space(#[trigger] s[k])),
        trimmed_start(s).len() > 0 ==> !space(trimmed_start(s)[0]),
    decreases s.len(),
{
    if s.len() > 0 && space(s[0]) {
        let rest = s.drop_first();
        start_is_dropped(rest);
        let i = choose|i: int|
            0 <= i <= rest.len() && #[trigger] rest.skip(i) == trimmed_start(rest) && (forall|k: int|
                0 <= k < i ==> space(#[trigger] rest[k]));
        assert(s.skip(i + 1) =~= rest.skip(i));
        assert forall|k: int| 0 <= k < i + 1 implies space(#[trigger] s[k]) by {
            if k > 0 {
                assert(rest[k - 1] == s[k]);
            }
        }
    } else {
        assert(s.skip(0) =~= s);
    }
}

proof fn end_is_dropped(s: Seq<char>)
    ensures
        trimmed_end(s).len() <= s.len(),
        s.take(trimmed_end(s).len() as int) == trimmed_end(s),
        forall|k: int| trimmed_end(s).len() <= k < s.len() ==> space(#[trigger] s[k]),
        trimmed_end(s).len() > 0 ==> !space(trimmed_end(s).last()),
    decreases s.len(),
{
    if s.len() > 0 && space(s.last()) {
        let rest = s.drop_last();
        end_is_dropped(rest);
        let n = trimmed_end(s).len() as int;
        assert(s.take(n) =~= rest.take(n));
        assert forall|k: int| n <= k < s.len() implies space(#[trigger] s[k]) by {
            if k < rest.len() {
                assert(rest[k] == s[k]);
            }
        }
    } else {
        assert(s.take(s.len() as int) =~= s);
    }
}

/// Trimming takes white space off both ends, and nothing else: what is left starts and
/// ends with something else, and everything in front of it and behind it is white
/// space.
pub proof fn trimming_takes_only_space(s: Seq<char>)
    ensures
        exists|i: int|
            0 <= i && i + trimmed(s).len() <= s.len() && #[trigger] s.subrange(
                i,
                i + trimmed(s).len(),
            ) == trimmed(s) && (forall|k: int|
                0 <= k < i || i + trimmed(s).len() <= k < s.len() ==> space(#[trigger] s[k])),
        trimmed(s).len() > 0 ==> !space(trimmed(s)[0]) && !space(trimmed(s).last()),
{
    let t = trimmed_start(s);
    start_is_dropped(s);
    end_is_dropped(t);
    let i = choose|i: int|
        0 <= i <= s.len() && #[trigger] s.skip(i) == trimmed_start(s) && (forall|k: int|
            0 <= k < i ==> space(#[trigger] s[k]));
    let n = trimmed(s).len() as int;
    assert(s.subrange(i, i + n) =~= t.take(n));
    assert forall|k: int| 0 <= k < i || i + n <= k < s.len() implies space(#[trigger] s[k]) by {
        if k >= i {
            assert(t[k - i] == s[k]);
        }
    }
    if n > 0 {
        assert(trimmed(s)[0] == t[0]);
    }
}

/// Lower case changes the letters from `A` to `Z`, each to the letter 32 places on,
/// and upper case those from `a` to `z`, back.
pub proof fn case_changes_letters(s: Seq<char>, k: int)
    requires
        0 <= k < s.len(),
    ensures
        lowered(s).len() == s.len(),
        uppered(s).len() == s.len(),
        65 <= s[k] as u32 <= 90 ==> lowered(s)[k] as u32 == s[k] as u32 + 32 && uppered(s)[k]
            == s[k],
        97 <= s[k] as u32 <= 122 ==> uppered(s)[k] as u32 == s[k] as u32 - 32 && lowered(s)[k]
            == s[k],
        !(65 <= s[k] as u32 <= 90) && !(97 <= s[k] as u32 <= 122) ==> lowered(s)[k] == s[k]
            && uppered(s)[k] == s[k],
{
}

/// Text is the same but for case if and only if it has the same characters, letter
/// case apart, at every place.
pub proof fn folding_compares_places(a: Seq<char>, b: Seq<char>)
    ensures
        fold_eq(a, b) <==> a.len() == b.len() && forall|k: int|
            0 <= k < a.len() ==> lower_char(#[trigger] a[k]) == lower_char(b[k]),
        fold_eq(a, uppered(a)),
        fold_eq(a, lowered(a)),
{
    if fold_eq(a, b) {
        assert(lowered(a).len() == lowered(b).len());
        assert forall|k: int| 0 <= k < a.len() implies lower_char(#[trigger] a[k]) == lower_char(
            b[k],
        ) by {
            assert(lowered(a)[k] == lowered(b)[k]);
        }
    }
    if a.len() == b.len() && forall|k: int|
        0 <= k < a.len() ==> lower_char(#[trigger] a[k]) == lower_char(b[k]) {
        assert(lowered(a) =~= lowered(b));
    }
    assert forall|k: int| 0 <= k < a.len() implies lower_char(#[trigger] a[k]) == lower_char(
        uppered(a)[k],
    ) by {}
    assert(lowered(a) =~= lowered(uppered(a)));
    assert(lowered(a) =~= lowered(lowered(a)));
}

/// A piece occurs in a text if and only if the text is something, the piece, and
/// something.
pub proof fn pieces_occur(s: Seq<char>, a: Seq<char>, p: Seq<char>, b: Seq<char>)
    ensures
        occurs(a + p + b, p),
        occurs(s, p) <==> exists|x: Seq<char>, y: Seq<char>| s == #[trigger] (x + p + y),
{
    assert((a + p + b).subrange(a.len() as int, (a.len() + p.len()) as int) =~= p);
    assert(occurs_at(a + p + b, p, a.len() as int));
    if occurs(s, p) {
        let i = choose|i: int| occurs_at(s, p, i);
        let x = s.take(i);
        let y = s.skip(i + p.len());
        assert(s =~= x + p + y);
    }
    if exists|x: Seq<char>, y: Seq<char>| s == #[trigger] (x + p + y) {
        let (x, y) = choose|x: Seq<char>, y: Seq<char>| s == #[trigger] (x + p + y);
        assert(s.subrange(x.len() as int, (x.len() + p.len()) as int) =~= p);
        assert(occurs_at(s, p, x.len() as int));
    }
}

/// The last place of a piece: it stands there, and nowhere behind.
pub proof fn last_place_is_last(s: Seq<char>, p: Seq<char>, i: int, j: int)
    requires
        -1 <= i,
    ensures
        -1 <= last_pos(s, p, i) <= i,
        last_pos(s, p, i) >= 0 ==> occurs_at(s, p, last_pos(s, p, i)),
        last_pos(s, p, i) < j <= i ==> !occurs_at(s, p, j),
    decreases i + 1,
{
    if i >= 0 && !occurs_at(s, p, i) {
        last_place_is_last(s, p, i - 1, j);
    }
}

/// A line ends at the first line feed; a carriage return just before that is no part
/// of the line, and what follows has lines of its own.
pub proof fn lines_end_at_line_feeds(line: Seq<char>, rest: Seq<char>)
    requires
        forall|k: int| 0 <= k < line.len() ==> #[trigger] line[k] != '\n',
    ensures
        lines_from(line + seq!['\n'] + rest, 0) == seq![
            if line.len() > 0 && line.last() == '\r' {
                line.drop_last()
            } else {
                line
            },
        ] + lines_from(rest, 0),
        line.len() > 0 ==> lines_from(line, 0) == seq![line],
        lines_from(Seq::<char>::empty(), 0).len() == 0,
{
    let s = line + seq!['\n'] + rest;
    let n = line.len() as int;
    assert forall|k: int| 0 <= k < n implies #[trigger] s[k] != '\n' by {
        assert(s[k] == line[k]);
    }
    assert(s[n] == '\n');
    char_pos_is(s, '\n', 0, n);
    assert(s.subrange(0, n) =~= line);
    let front = line + seq!['\n'];
    lines_behind(front, rest, 0);
    char_pos_is(line, '\n', 0, n);
    assert(line.subrange(0, n) =~= line);
}

proof fn pieces_behind(front: Seq<char>, s: Seq<char>, c: char, i: int)
    requires
        0 <= i <= s.len(),
    ensures
        pieces_from(front + s, c, front.len() + i) == pieces_from(s, c, i),
    decreases s.len() - i,
{
    let all = front + s;
    let n = front.len() as int;
    char_pos_behind(front, s, c, i);
    char_pos_bounds(s, c, i);
    let end = char_pos(s, c, i);
    assert(all.subrange(n + i, n + end) =~= s.subrange(i, end));
    if end < s.len() {
        pieces_behind(front, s, c, end + 1);
    }
}

/// Splitting cuts a text at every separator: the first piece ends in front of the
/// first one, and what follows has pieces of its own.
pub proof fn pieces_end_at_separators(piece: Seq<char>, rest: Seq<char>, c: char)
    requires
        forall|k: int| 0 <= k < piece.len() ==> #[trigger] piece[k] != c,
    ensures
        pieces_from(piece + seq![c] + rest, c, 0) == seq![piece] + pieces_from(rest, c, 0),
        pieces_from(piece, c, 0) == seq![piece],
{
    let s = piece + seq![c] + rest;
    let n = piece.len() as int;
    assert forall|k: int| 0 <= k < n implies #[trigger] s[k] != c by {
        assert(s[k] == piece[k]);
    }
    assert(s[n] == c);
    char_pos_is(s, c, 0, n);
    char_pos_is(piece, c, 0, n);
    assert(s.subrange(0, n) =~= piece);
    assert(piece.subrange(0, n) =~= piece);
    pieces_behind(piece + seq![c], rest, c, 0);
}

/// Joined pieces have the separator between each two of them, and nowhere else.
pub proof fn joining_puts_separators_between(
    pieces: Seq<Seq<char>>,
    piece: Seq<char>,
    sep: Seq<char>,
)
    ensures
        joined(Seq::<Seq<char>>::empty(), sep).len() == 0,
        joined(seq![piece], sep) == piece,
        pieces.len() > 0 ==> joined(pieces.push(piece), sep) == joined(pieces, sep) + sep + piece,
{
    assert(pieces.push(piece).drop_last() =~= pieces);
}

proof fn space_pos_is(s: Seq<char>, i: int, end: int)
    requires
        0 <= i <= end <= s.len(),
        forall|k: int| i <= k < end ==> !space(#[trigger] s[k]),
        end < s.len() ==> space(s[end]),
    ensures
        space_pos(s, i) == end,
    decreases end - i,
{
    if i < end {
        space_pos_is(s, i + 1, end);
    }
}

proof fn space_pos_behind(front: Seq<char>, s: Seq<char>, i: int)
    requires
        0 <= i <= s.len(),
    ensures
        space_pos(front + s, front.len() + i) == front.len() + space_pos(s, i),
        i <= space_pos(s, i) <= s.len(),
    decreases s.len() - i,
{
    if i < s.len() && !space(s[i]) {
        assert((front + s)[front.len() + i] == s[i]);
        space_pos_behind(front, s, i + 1);
    } else if i < s.len() {
        assert((front + s)[front.len() + i] == s[i]);
    }
}

proof fn words_behind(front: Seq<char>, s: Seq<char>, i: int)
    requires
        0 <= i <= s.len(),
    ensures
        words_from(front + s, front.len() + i) == words_from(s, i),
    decreases s.len() - i,
{
    let all = front + s;
    let n = front.len() as int;
    if i < s.len() {
        assert(all[n + i] == s[i]);
        if space(s[i]) {
            words_behind(front, s, i + 1);
        } else {
            space_pos_behind(front, s, i);
            let end = space_pos(s, i);
            space_pos_bounds(s, i + 1);
            assert(all.subrange(n + i, n + end) =~= s.subrange(i, end));
            words_behind(front, s, end);
        }
    }
}

/// White space in front makes no word; a word is what stands up to the next white
/// space, and what follows has words of its own.
pub proof fn words_stand_between_spaces(word: Seq<char>, c: char, rest: Seq<char>)
    requires
        word.len() > 0,
        forall|k: int| 0 <= k < word.len() ==> !space(#[trigger] word[k]),
        space(c),
    ensures
        words(word) == seq![word],
        words(word + seq![c] + rest) == seq![word] + words(rest),
        words(seq![c] + rest) == words(rest),
        words(Seq::<char>::empty()).len() == 0,
{
    let n = word.len() as int;
    let s = word + seq![c] + rest;
    assert(!space(word[0]));
    space_pos_is(word, 0, n);
    assert(word.subrange(0, n) =~= word);
    assert(words_from(word, n).len() == 0);
    assert(words(word) =~= seq![word]);
    assert forall|k: int| 0 <= k < n implies !space(#[trigger] s[k]) by {
        assert(s[k] == word[k]);
    }
    assert(s[n] == c);
    space_pos_is(s, 0, n);
    assert(s.subrange(0, n) =~= word);
    words_behind(word + seq![c], rest, 0);
    assert(words_from(s, n) == words_from(s, n + 1));
    assert(!space(s[0]));
    words_behind(seq![c], rest, 0);
    assert((seq![c] + rest)[0] == c);
}

/// Doubling writes a quote twice and any other character once.
pub proof fn doubling_doubles_quotes(s: Seq<char>, q: char, c: char)
    ensures
        doubled(Seq::<char>::empty(), q).len() == 0,
        doubled(seq![c] + s, q) == (if c == q {
            seq![q, q]
        } else {
            seq![c]
        }) + doubled(s, q),
{
    assert((seq![c] + s).skip(1) =~= s);
}

/// A prefix is dropped as often as the text starts with it.
pub proof fn prefixes_are_dropped(s: Seq<char>, p: Seq<char>)
    requires
        p.len() > 0,
    ensures
        without_prefixes(p + s, p) == without_prefixes(s, p),
        !occurs_at(s, p, 0) ==> without_prefixes(s, p) == s,
        !occurs_at(without_prefixes(s, p), p, 0),
    decreases s.len(),
{
    assert((p + s).subrange(0, p.len() as int) =~= p);
    assert((p + s).skip(p.len() as int) =~= s);
    if occurs_at(s, p, 0) {
        prefixes_are_dropped(s.skip(p.len() as int), p);
    }
}

/// A character is dropped as often as the text starts with it, or ends in it.
pub proof fn repeated_ends_are_dropped(s: Seq<char>, c: char)
    ensures
        trimmed_start_of(seq![c] + s, c) == trimmed_start_of(s, c),
        s.len() > 0 && s[0] != c ==> trimmed_start_of(s, c) == s,
        trimmed_end_of(s.push(c), c) == trimmed_end_of(s, c),
        s.len() > 0 && s.last() != c ==> trimmed_end_of(s, c) == s,
        trimmed_start_of(Seq::<char>::empty(), c).len() == 0,
        trimmed_end_of(Seq::<char>::empty(), c).len() == 0,
{
    assert((seq![c] + s).skip(1) =~= s);
    assert(s.push(c).drop_last() =~= s);
}

/// White space beyond ASCII: the next line, the spaces that do not break or have a
/// width of their own, and the separators of lines and paragraphs.
pub proof fn wide_spaces(c: char)
    requires
        c as u32 >= 128,
    ensures
        space(c) <==> {
            ||| c as u32 == 0x85
            ||| c as u32 == 0xa0
            ||| c as u32 == 0x1680
            ||| 0x2000 <= c as u32 <= 0x200a
            ||| c as u32 == 0x2028
            ||| c as u32 == 0x2029
            ||| c as u32 == 0x202f
            ||| c as u32 == 0x205f
            ||| c as u32 == 0x3000
        },
{
}

/// Of the ASCII characters, the ten digits and the letters of both cases are letters
/// or digits.
pub proof fn ascii_letters_and_digits(c: char)
    requires
        (c as u32) < 128,
    ensures
        letter_or_digit(c) <==> (48 <= c as u32 <= 57 || 65 <= c as u32 <= 90 || 97 <= c as u32
            <= 122),
{
}

} // verus!
