//! Column types and defaults as the catalogue of the engine holds them, and as a
//! MySQL client expects to see them.
//!
//! The engine reports the bare type name of a column, without its size. A client
//! takes the length of a string column from there, so the size is recovered from
//! the stored `CREATE TABLE` text: only the leading `name type (size)` of each
//! definition is read, and the rest of it is passed over.

use vstd::prelude::*;

use crate::text;

verus! {

// ---------------------------------------------------------------------------
// Types and defaults
// ---------------------------------------------------------------------------
/// A column default as MySQL shows it: a string literal without its quotes, and
/// anything else as it stands.
pub open spec fn default_text(d: Seq<char>) -> Seq<char> {
    if d.len() >= 2 && d[0] == '\'' && d.last() == '\'' {
        text::undoubled(d.subrange(1, d.len() - 1), '\'')
    } else {
        d
    }
}

/// Normalizes a column default.
pub fn normalize_default(default: Option<String>) -> (r: Option<String>)
    ensures
        r.deep_view() == match default.deep_view() {
            Some(d) => Some(default_text(d)),
            None => None,
        },
{
    match default {
        None => None,
        Some(value) => {
            let d = text::chars_of(value.as_str());
            if d.len() >= 2 && d[0] == '\'' && d[d.len() - 1] == '\'' {
                let inner = &d[1..d.len() - 1];
                assert(inner@ =~= d@.subrange(1, d@.len() - 1));
                Some(text::string_of(&text::undouble(inner, '\'')))
            } else {
                Some(value)
            }
        },
    }
}

/// A string default is shown as the string that it stands for.
pub proof fn literal_default_is_bare(s: Seq<char>)
    ensures
        default_text(seq!['\''] + text::doubled(s, '\'') + seq!['\'']) == s,
{
    let d = seq!['\''] + text::doubled(s, '\'') + seq!['\''];
    assert(d.subrange(1, d.len() - 1) =~= text::doubled(s, '\''));
    text::doubling_is_undone(s, '\'');
}

/// `c` is an ASCII letter.
pub open spec fn is_letter(c: char) -> bool {
    'a' <= c <= 'z' || 'A' <= c <= 'Z'
}

/// The first position from `i` on that holds no ASCII letter.
pub open spec fn letters_end(s: Seq<char>, i: int) -> int
    decreases s.len() - i,
{
    if 0 <= i < s.len() && is_letter(s[i]) {
        letters_end(s, i + 1)
    } else {
        i
    }
}

/// What follows the name of an integer type: the display width, if there is one,
/// and the attributes.
pub open spec fn width_and_suffix(rest: Seq<char>) -> (Option<Seq<char>>, Seq<char>) {
    let open = text::char_pos(rest, '(', 0);
    let close = text::char_pos(rest, ')', 0);
    if close < rest.len() && open < close {
        (Some(rest.subrange(open + 1, close)), text::trimmed(rest.skip(close + 1)))
    } else {
        (None, text::trimmed(rest))
    }
}

/// `base` names an integer type.
pub open spec fn is_integer_name(base: Seq<char>) -> bool {
    base == "int"@ || base == "tinyint"@ || base == "smallint"@ || base == "mediumint"@ || base
        == "bigint"@
}

/// A column type as MySQL shows it: in lower case, and an integer type without its
/// display width, but for `tinyint(1)` and `zerofill`.
pub open spec fn shown_type(ty: Seq<char>) -> Seq<char> {
    let lower = text::lowered(text::trimmed(ty));
    let end = letters_end(lower, 0);
    let base = if lower.take(end) == "integer"@ {
        "int"@
    } else {
        lower.take(end)
    };
    if !is_integer_name(base) {
        lower
    } else {
        let (width, suffix) = width_and_suffix(lower.skip(end));
        let keep = text::occurs(suffix, "zerofill"@) || (base == "tinyint"@ && width == Some("1"@));
        base + (match width {
            Some(w) if keep => seq!['('] + w + seq![')'],
            _ => seq![],
        }) + (if suffix.len() > 0 {
            seq![' '] + suffix
        } else {
            seq![]
        })
    }
}

/// Normalizes a column type.
pub fn normalize_column_type(ty: &str) -> (r: String)
    ensures
        r@ == shown_type(ty@),
{
    let chars = text::chars_of(ty);
    let lower = text::to_lower(text::trim(&chars));
    let mut end: usize = 0;
    while end < lower.len() && (('a' <= lower[end] && lower[end] <= 'z') || ('A' <= lower[end]
        && lower[end] <= 'Z'))
        invariant
            end <= lower@.len(),
            letters_end(lower@, 0) == letters_end(lower@, end as int),
        decreases lower@.len() - end,
    {
        end = end + 1;
    }
    let head = &lower[0..end];
    assert(head@ =~= lower@.take(end as int));
    let base = if text::is_text(head, "integer") {
        text::chars_of("int")
    } else {
        text::copy_chars(head)
    };
    let is_tiny = text::is_text(&base, "tinyint");
    if !(is_tiny || text::is_text(&base, "int") || text::is_text(&base, "smallint")
        || text::is_text(&base, "mediumint") || text::is_text(&base, "bigint")) {
        return text::string_of(&lower);
    }
    let rest = &lower[end..lower.len()];
    assert(rest@ =~= lower@.skip(end as int));
    let open: usize = text::find_char(rest, '(', 0);
    let close: usize = text::find_char(rest, ')', 0);
    let mut out = base;
    let ghost name = out@;
    if close < rest.len() && open < close {
        let width = &rest[open + 1..close];
        assert(width@ =~= rest@.subrange(open + 1, close as int));
        let tail = &rest[close + 1..rest.len()];
        assert(tail@ =~= rest@.skip(close + 1));
        let suffix = text::trim(tail);
        if text::contains(suffix, &text::chars_of("zerofill")) || (is_tiny && text::is_text(
            width,
            "1",
        )) {
            out.push('(');
            text::push_chars(&mut out, width);
            out.push(')');
        }
        if suffix.len() > 0 {
            out.push(' ');
            text::push_chars(&mut out, suffix);
        }
    } else {
        let suffix = text::trim(rest);
        if suffix.len() > 0 {
            out.push(' ');
            text::push_chars(&mut out, suffix);
        }
    }
    assert(out@ =~= shown_type(ty@));
    text::string_of(&out)
}

/// The type is character data, which has a collation.
pub open spec fn is_text_spec(ty: Seq<char>) -> bool {
    let u = text::uppered(ty);
    text::occurs(u, "CHAR"@) || text::occurs(u, "TEXT"@) || text::occurs(u, "CLOB"@)
}

/// Whether a declared type is character data.
pub fn is_text_type(ty: &str) -> (r: bool)
    ensures
        r == is_text_spec(ty@),
{
    let upper = text::to_upper(&text::chars_of(ty));
    text::contains(&upper, &text::chars_of("CHAR")) || text::contains(
        &upper,
        &text::chars_of("TEXT"),
    ) || text::contains(&upper, &text::chars_of("CLOB"))
}

// ---------------------------------------------------------------------------
// The stored CREATE TABLE text
// ---------------------------------------------------------------------------
/// The definitions of a column list, with `start..i` read of the first of them.
/// Commas within parentheses or string literals do not separate; the parenthesis
/// that closes the list ends it, and blank text before that is no definition.
pub open spec fn definitions_from(
    s: Seq<char>,
    start: int,
    i: int,
    depth: nat,
    quoted: bool,
) -> Seq<Seq<char>>
    decreases s.len() - i,
{
    if i >= s.len() || i < 0 || (s[i] == ')' && !quoted && depth == 0) {
        if text::trimmed(s.subrange(start, i)).len() > 0 {
            seq![s.subrange(start, i)]
        } else {
            seq![]
        }
    } else if s[i] == '\'' {
        definitions_from(s, start, i + 1, depth, !quoted)
    } else if quoted {
        definitions_from(s, start, i + 1, depth, true)
    } else if s[i] == '(' {
        definitions_from(s, start, i + 1, depth + 1, false)
    } else if s[i] == ')' {
        definitions_from(s, start, i + 1, (depth - 1) as nat, false)
    } else if s[i] == ',' && depth == 0 {
        seq![s.subrange(start, i)] + definitions_from(s, i + 1, i + 1, 0, false)
    } else {
        definitions_from(s, start, i + 1, depth, false)
    }
}

/// The definitions of a column list.
pub open spec fn definitions(body: Seq<char>) -> Seq<Seq<char>> {
    definitions_from(body, 0, 0, 0, false)
}

/// Splits a column list into its definitions.
pub fn split_column_list(body: &str) -> (r: Vec<String>)
    ensures
        r.deep_view() == definitions(body@),
{
    let s = text::chars_of(body);
    let mut out: Vec<String> = Vec::new();
    let mut depth: usize = 0;
    let mut quoted = false;
    let mut start: usize = 0;
    let mut i: usize = 0;
    assert(out.deep_view() + definitions(s@) =~= definitions(s@));
    while i < s.len() && !(s[i] == ')' && !quoted && depth == 0)
        invariant
            start <= i <= s@.len(),
            depth <= i,
            out.deep_view() + definitions_from(s@, start as int, i as int, depth as nat, quoted)
                == definitions(s@),
        decreases s@.len() - i,
    {
        let c = s[i];
        if c == '\'' {
            quoted = !quoted;
        } else if !quoted {
            if c == '(' {
                depth = depth + 1;
            } else if c == ')' {
                depth = depth - 1;
            } else if c == ',' && depth == 0 {
                let ghost before = out.deep_view();
                let item = text::string_of(&s[start..i]);
                out.push(item);
                assert(out.deep_view() =~= before.push(item@));
                assert(before + (seq![item@] + definitions_from(s@, i + 1, i + 1, 0, false))
                    =~= out.deep_view() + definitions_from(s@, i + 1, i + 1, 0, false));
                start = i + 1;
            }
        }
        i = i + 1;
    }
    let last = &s[start..i];
    if text::trim(last).len() > 0 {
        let ghost before = out.deep_view();
        let item = text::string_of(last);
        out.push(item);
        assert(out.deep_view() =~= before.push(item@));
        assert(before + seq![item@] =~= out.deep_view());
    } else {
        assert(out.deep_view() + Seq::<Seq<char>>::empty() =~= out.deep_view());
    }
    out
}

/// `word` starts a table constraint.
pub open spec fn starts_constraint(word: Seq<char>) -> bool {
    word == "primary"@ || word == "unique"@ || word == "key"@ || word == "index"@ || word
        == "fulltext"@ || word == "spatial"@ || word == "foreign"@ || word == "constraint"@ || word
        == "check"@
}

/// Whether a lower-case word starts a table constraint, and no column definition.
pub fn is_table_constraint_keyword(word: &str) -> (r: bool)
    ensures
        r == starts_constraint(word@),
{
    let w = text::chars_of(word);
    text::is_text(&w, "primary") || text::is_text(&w, "unique") || text::is_text(&w, "key")
        || text::is_text(&w, "index") || text::is_text(&w, "fulltext") || text::is_text(
        &w,
        "spatial",
    ) || text::is_text(&w, "foreign") || text::is_text(&w, "constraint") || text::is_text(
        &w,
        "check",
    )
}

/// The first position from `i` on with white space or an opening parenthesis.
pub open spec fn word_end(s: Seq<char>, i: int) -> int
    decreases s.len() - i,
{
    if 0 <= i < s.len() && !text::space(s[i]) && s[i] != '(' {
        word_end(s, i + 1)
    } else {
        i
    }
}

/// Finds the end of the word that starts `s`.
fn find_word_end(s: &[char]) -> (r: usize)
    ensures
        r == word_end(s@, 0),
        r <= s@.len(),
{
    let mut end: usize = 0;
    while end < s.len() && !text::is_space(s[end]) && s[end] != '('
        invariant
            end <= s@.len(),
            word_end(s@, 0) == word_end(s@, end as int),
        decreases s@.len() - end,
    {
        end = end + 1;
    }
    end
}

/// The name that starts a definition: whether it is quoted, the name, and what
/// follows it. A name stands between backticks or double quotes, or is a bare
/// word. `None` where the closing quote is missing.
pub open spec fn name_and_rest(s: Seq<char>) -> Option<(bool, Seq<char>, Seq<char>)> {
    if s.len() > 0 && (s[0] == '`' || s[0] == '"') {
        let after = s.skip(1);
        let end = text::char_pos(after, s[0], 0);
        if end < after.len() {
            Some((true, after.take(end), after.skip(end + 1)))
        } else {
            None
        }
    } else {
        let end = word_end(s, 0);
        Some((false, s.take(end), s.skip(end)))
    }
}

/// `s` without its white space.
pub open spec fn without_spaces(s: Seq<char>) -> Seq<char> {
    s.filter(|c: char| !text::space(c))
}

/// The type of a column with a size, from what follows the column's name.
pub open spec fn sized_type(rest: Seq<char>) -> Option<Seq<char>> {
    let r = text::trimmed_start(rest);
    let end = word_end(r, 0);
    let after = text::trimmed_start(r.skip(end));
    if end == 0 || after.len() == 0 || after[0] != '(' {
        None
    } else {
        let inner = after.skip(1);
        let close = text::char_pos(inner, ')', 0);
        let size = without_spaces(inner.take(close));
        if close >= inner.len() || size.len() == 0 {
            None
        } else {
            Some(r.take(end) + seq!['('] + size + seq![')'])
        }
    }
}

/// The name, in lower case, and the sized type of a column definition. `None` for
/// a table constraint, which a bare word starts, and for a column without a size.
pub open spec fn column_def(segment: Seq<char>) -> Option<(Seq<char>, Seq<char>)> {
    match name_and_rest(text::trimmed(segment)) {
        None => None,
        Some((quoted, name, rest)) => if !quoted && starts_constraint(text::lowered(name)) {
            None
        } else {
            match sized_type(rest) {
                None => None,
                Some(ty) => Some((text::lowered(name), ty)),
            }
        },
    }
}

/// Drops the white space.
fn drop_spaces(s: &[char]) -> (r: Vec<char>)
    ensures
        r@ == without_spaces(s@),
{
    let mut out: Vec<char> = Vec::new();
    let ghost keep = |c: char| !text::space(c);
    proof {
        reveal(Seq::filter);
        assert(s@.take(0) =~= Seq::<char>::empty());
    }
    for i in 0..s.len()
        invariant
            keep == (|c: char| !text::space(c)),
            out@ == s@.take(i as int).filter(keep),
    {
        proof {
            reveal(Seq::filter);
            assert(s@.take(i + 1).drop_last() =~= s@.take(i as int));
        }
        if !text::is_space(s[i]) {
            out.push(s[i]);
        }
    }
    assert(s@.take(s@.len() as int) =~= s@);
    out
}

/// Reads the sized type that follows a column's name.
fn read_sized_type(rest: &[char]) -> (r: Option<String>)
    ensures
        r.deep_view() == sized_type(rest@),
{
    let t = text::trim_start(rest);
    let end: usize = find_word_end(t);
    if end == 0 {
        return None;
    }
    let tail = &t[end..t.len()];
    assert(tail@ =~= t@.skip(end as int));
    let after = text::trim_start(tail);
    match text::strip_first(after, '(') {
        None => None,
        Some(inner) => {
            let close: usize = text::find_char(inner, ')', 0);
            if close >= inner.len() {
                return None;
            }
            let within = &inner[0..close];
            assert(within@ =~= inner@.take(close as int));
            let size = drop_spaces(within);
            if size.len() == 0 {
                return None;
            }
            let base = &t[0..end];
            assert(base@ =~= t@.take(end as int));
            let mut out = text::copy_chars(base);
            out.push('(');
            text::push_chars(&mut out, &size);
            out.push(')');
            assert(out@ =~= t@.take(end as int) + seq!['('] + size@ + seq![')']);
            Some(text::string_of(&out))
        },
    }
}

/// Splits the name off a definition, and says whether it is quoted.
fn split_name<'a>(s: &'a [char]) -> (r: Option<(bool, &'a [char], &'a [char])>)
    ensures
        match r {
            Some((quoted, name, rest)) => name_and_rest(s@) == Some((quoted, name@, rest@)),
            None => name_and_rest(s@) is None,
        },
{
    if s.len() > 0 && (s[0] == '`' || s[0] == '"') {
        let after = &s[1..s.len()];
        assert(after@ =~= s@.skip(1));
        let end: usize = text::find_char(after, s[0], 0);
        if end >= after.len() {
            return None;
        }
        let name = &after[0..end];
        assert(name@ =~= after@.take(end as int));
        let rest = &after[end + 1..after.len()];
        assert(rest@ =~= after@.skip(end + 1));
        Some((true, name, rest))
    } else {
        let end: usize = find_word_end(s);
        let name = &s[0..end];
        assert(name@ =~= s@.take(end as int));
        let rest = &s[end..s.len()];
        assert(rest@ =~= s@.skip(end as int));
        Some((false, name, rest))
    }
}

/// Reads a column's name, in lower case, and its sized type from its definition.
pub fn parse_column_def(segment: &str) -> (r: Option<(String, String)>)
    ensures
        r.deep_view() == column_def(segment@),
{
    let chars = text::chars_of(segment);
    let s = text::trim(&chars);
    let (quoted, name, rest) = match split_name(s) {
        None => return None,
        Some(parts) => parts,
    };
    let lower = text::string_of(&text::to_lower(name));
    if !quoted && is_table_constraint_keyword(lower.as_str()) {
        return None;
    }
    match read_sized_type(rest) {
        None => None,
        Some(ty) => Some((lower, ty)),
    }
}

/// The sized columns among the first definitions, in order.
pub open spec fn sized_columns(defs: Seq<Seq<char>>) -> Seq<(Seq<char>, Seq<char>)>
    decreases defs.len(),
{
    if defs.len() == 0 {
        seq![]
    } else {
        let before = sized_columns(defs.drop_last());
        match column_def(defs.last()) {
            Some(entry) => before.push(entry),
            None => before,
        }
    }
}

/// The columns of a `CREATE TABLE` text that have a size, with their types.
pub open spec fn declared_types(create_sql: Option<Seq<char>>) -> Seq<(Seq<char>, Seq<char>)> {
    match create_sql {
        None => seq![],
        Some(sql) => {
            let open = text::char_pos(sql, '(', 0);
            if open < sql.len() {
                sized_columns(definitions(sql.skip(open + 1)))
            } else {
                seq![]
            }
        },
    }
}

/// Reads the sized types from a `CREATE TABLE` text.
pub fn declared_column_types(create_sql: &Option<String>) -> (r: Vec<(String, String)>)
    ensures
        r.deep_view() == declared_types(create_sql.deep_view()),
{
    let mut out: Vec<(String, String)> = Vec::new();
    assert(out.deep_view() =~= seq![]);
    let sql = match create_sql {
        None => return out,
        Some(sql) => text::chars_of(sql.as_str()),
    };
    let open: usize = text::find_char(&sql, '(', 0);
    if open >= sql.len() {
        return out;
    }
    let tail = &sql[open + 1..sql.len()];
    assert(tail@ =~= sql@.skip(open + 1));
    let body = text::string_of(tail);
    let defs = split_column_list(body.as_str());
    let ghost views = defs.deep_view();
    assert(views.take(0) =~= seq![]);
    for i in 0..defs.len()
        invariant
            views == defs.deep_view(),
            out.deep_view() == sized_columns(views.take(i as int)),
    {
        assert(views.take(i + 1).drop_last() =~= views.take(i as int));
        assert(views.take(i + 1).last() == defs@[i as int]@);
        let ghost before = out.deep_view();
        if let Some(entry) = parse_column_def(defs[i].as_str()) {
            out.push(entry);
            assert(out.deep_view() =~= before.push(entry.deep_view()));
        }
    }
    assert(views.take(views.len() as int) =~= views);
    out
}

/// The type of the last entry for `name`.
pub open spec fn last_type(entries: Seq<(Seq<char>, Seq<char>)>, name: Seq<char>) -> Option<
    Seq<char>,
>
    decreases entries.len(),
{
    if entries.len() == 0 {
        None
    } else if entries.last().0 == name {
        Some(entries.last().1)
    } else {
        last_type(entries.drop_last(), name)
    }
}

/// Looks up the sized type of a column, whose name is in lower case.
pub fn type_for(entries: &Vec<(String, String)>, name: &str) -> (r: Option<String>)
    ensures
        r.deep_view() == last_type(entries.deep_view(), name@),
{
    let wanted = text::chars_of(name);
    let ghost views = entries.deep_view();
    let mut i: usize = entries.len();
    assert(views.take(views.len() as int) =~= views);
    while i > 0
        invariant
            i <= entries@.len(),
            views == entries.deep_view(),
            wanted@ == name@,
            last_type(views, name@) == last_type(views.take(i as int), name@),
        decreases i,
    {
        i = i - 1;
        assert(views.take(i + 1).drop_last() =~= views.take(i as int));
        assert(views.take(i + 1).last() == (entries@[i as int].0@, entries@[i as int].1@));
        if text::same(&text::chars_of(entries[i].0.as_str()), &wanted) {
            return Some(entries[i].1.clone());
        }
    }
    assert(views.take(0) =~= seq![]);
    None
}

// ---------------------------------------------------------------------------
// Laws
// ---------------------------------------------------------------------------
/// A default that is no string literal is shown as it stands.
pub proof fn other_defaults_stay(d: Seq<char>)
    requires
        d.len() < 2 || d[0] != '\'' || d.last() != '\'',
    ensures
        default_text(d) == d,
{
}

proof fn letters_reach(s: Seq<char>, i: int, end: int)
    requires
        0 <= i <= end <= s.len(),
        forall|k: int| i <= k < end ==> 'a' <= #[trigger] s[k] <= 'z',
        end < s.len() ==> !('a' <= s[end] <= 'z' || 'A' <= s[end] <= 'Z'),
    ensures
        letters_end(s, i) == end,
    decreases end - i,
{
    if i < end {
        letters_reach(s, i + 1, end);
    }
}

/// The names of the integer types, as they are shown: `integer` is shown as `int`.
pub open spec fn shown_integer(name: Seq<char>) -> Option<Seq<char>> {
    if name == "int"@ || name == "integer"@ {
        Some("int"@)
    } else if name == "tinyint"@ || name == "smallint"@ || name == "mediumint"@ || name
        == "bigint"@ {
        Some(name)
    } else {
        None
    }
}

proof fn integer_names()
    ensures
        "int"@ == seq!['i', 'n', 't'],
        "integer"@.len() == 7,
        "tinyint"@.len() == 7 && "tinyint"@[0] == 't',
        "integer"@[0] == 'i',
        "smallint"@.len() == 8,
        "mediumint"@.len() == 9,
        "bigint"@.len() == 6,
{
    reveal_strlit("int");
    assert("int"@ =~= seq!['i', 'n', 't']);
    reveal_strlit("integer");
    reveal_strlit("tinyint");
    reveal_strlit("smallint");
    reveal_strlit("mediumint");
    reveal_strlit("bigint");
}

/// Types are shown in lower case. The width of an integer type is left out, unless the
/// type is filled with zeros or is `tinyint(1)`; what follows it is kept.
pub proof fn integer_widths_are_left_out(
    ty: Seq<char>,
    name: Seq<char>,
    width: Seq<char>,
    rest: Seq<char>,
)
    requires
        text::lowered(text::trimmed(ty)) == name + seq!['('] + width + seq![')'] + rest,
        shown_integer(name) is Some,
        forall|k: int| 0 <= k < name.len() ==> 'a' <= #[trigger] name[k] <= 'z',
        forall|k: int| 0 <= k < width.len() ==> #[trigger] width[k] != '(' && width[k] != ')',
    ensures
        ({
            let suffix = text::trimmed(rest);
            let kept = text::occurs(suffix, "zerofill"@) || (name == "tinyint"@ && width == "1"@);
            let tail = if suffix.len() > 0 {
                seq![' '] + suffix
            } else {
                seq![]
            };
            &&& kept ==> shown_type(ty) == shown_integer(name)->0 + (seq!['('] + width + seq![')'])
                + tail
            &&& !kept ==> shown_type(ty) == shown_integer(name)->0 + tail
        }),
{
    integer_names();
    let lower = text::lowered(text::trimmed(ty));
    let n = name.len() as int;
    assert forall|k: int| 0 <= k < n implies 'a' <= #[trigger] lower[k] <= 'z' by {
        assert(lower[k] == name[k]);
    }
    assert(lower[n] == '(');
    letters_reach(lower, 0, n);
    assert(lower.take(n) =~= name);
    let r = lower.skip(n);
    let close = 1 + width.len() as int;
    assert(r =~= seq!['('] + width + seq![')'] + rest);
    assert(r[0] == '(');
    text::char_pos_is(r, '(', 0, 0);
    assert forall|k: int| 0 <= k < close implies #[trigger] r[k] != ')' by {
        if k > 0 {
            assert(r[k] == width[k - 1]);
        }
    }
    assert(r[close] == ')');
    text::char_pos_is(r, ')', 0, close);
    assert(r.subrange(1, close) =~= width);
    assert(r.skip(close + 1) =~= rest);
    let base = shown_integer(name)->0;
    let none = Seq::<char>::empty();
    let suffix = text::trimmed(rest);
    let tail = if suffix.len() > 0 {
        seq![' '] + suffix
    } else {
        seq![]
    };
    assert(base + none + tail =~= base + tail);
}

/// An integer type without a width is its name and what follows.
pub proof fn integers_without_width(ty: Seq<char>, name: Seq<char>, rest: Seq<char>)
    requires
        text::lowered(text::trimmed(ty)) == name + rest,
        shown_integer(name) is Some,
        forall|k: int| 0 <= k < name.len() ==> 'a' <= #[trigger] name[k] <= 'z',
        rest.len() > 0 ==> rest[0] == ' ',
        forall|k: int| 0 <= k < rest.len() ==> #[trigger] rest[k] != ')',
    ensures
        shown_type(ty) == shown_integer(name)->0 + if text::trimmed(rest).len() > 0 {
            seq![' '] + text::trimmed(rest)
        } else {
            seq![]
        },
{
    integer_names();
    let lower = text::lowered(text::trimmed(ty));
    let n = name.len() as int;
    assert forall|k: int| 0 <= k < n implies 'a' <= #[trigger] lower[k] <= 'z' by {
        assert(lower[k] == name[k]);
    }
    if rest.len() > 0 {
        assert(lower[n] == ' ');
    }
    letters_reach(lower, 0, n);
    assert(lower.take(n) =~= name);
    assert(lower.skip(n) =~= rest);
    text::char_pos_is(rest, ')', 0, rest.len() as int);
    let base = shown_integer(name)->0;
    let none = Seq::<char>::empty();
    let suffix = text::trimmed(rest);
    let tail = if suffix.len() > 0 {
        seq![' '] + suffix
    } else {
        seq![]
    };
    assert(base + none + tail =~= base + tail);
}

/// Any other type is shown whole.
pub proof fn other_types_are_shown_whole(ty: Seq<char>, name: Seq<char>, rest: Seq<char>)
    requires
        text::lowered(text::trimmed(ty)) == name + rest,
        shown_integer(name) is None,
        forall|k: int| 0 <= k < name.len() ==> 'a' <= #[trigger] name[k] <= 'z',
        rest.len() > 0 ==> !('a' <= rest[0] <= 'z' || 'A' <= rest[0] <= 'Z'),
    ensures
        shown_type(ty) == text::lowered(text::trimmed(ty)),
{
    integer_names();
    let lower = text::lowered(text::trimmed(ty));
    let n = name.len() as int;
    assert forall|k: int| 0 <= k < n implies 'a' <= #[trigger] lower[k] <= 'z' by {
        assert(lower[k] == name[k]);
    }
    if rest.len() > 0 {
        assert(lower[n] == rest[0]);
    }
    letters_reach(lower, 0, n);
    assert(lower.take(n) =~= name);
}

/// A type is text if and only if its name holds `CHAR`, `TEXT` or `CLOB`, in any case.
pub proof fn text_types(ty: Seq<char>)
    ensures
        is_text_spec(ty) <==> {
            ||| exists|x: Seq<char>, y: Seq<char>|
                text::uppered(ty) == #[trigger] (x + "CHAR"@ + y)
            ||| exists|x: Seq<char>, y: Seq<char>|
                text::uppered(ty) == #[trigger] (x + "TEXT"@ + y)
            ||| exists|x: Seq<char>, y: Seq<char>|
                text::uppered(ty) == #[trigger] (x + "CLOB"@ + y)
        },
{
    let u = text::uppered(ty);
    text::pieces_occur(u, seq![], "CHAR"@, seq![]);
    text::pieces_occur(u, seq![], "TEXT"@, seq![]);
    text::pieces_occur(u, seq![], "CLOB"@, seq![]);
}

/// Of two entries for a column the later one counts.
pub proof fn later_types_count(
    entries: Seq<(Seq<char>, Seq<char>)>,
    name: Seq<char>,
    other: Seq<char>,
    ty: Seq<char>,
)
    ensures
        last_type(Seq::<(Seq<char>, Seq<char>)>::empty(), name) is None,
        last_type(entries.push((name, ty)), name) == Some(ty),
        other != name ==> last_type(entries.push((other, ty)), name) == last_type(entries, name),
{
    assert(entries.push((name, ty)).drop_last() =~= entries);
    assert(entries.push((other, ty)).drop_last() =~= entries);
}

proof fn definitions_pass(s: Seq<char>, i: int, end: int, depth: nat, quoted: bool)
    requires
        0 <= i <= end <= s.len(),
        forall|k: int|
            i <= k < end ==> #[trigger] s[k] != '\'' && (!quoted ==> s[k] != '(' && s[k] != ')' && (
            depth == 0 ==> s[k] != ',')),
    ensures
        definitions_from(s, 0, i, depth, quoted) == definitions_from(s, 0, end, depth, quoted),
    decreases end - i,
{
    if i < end {
        assert(s[i] != '\'');
        definitions_pass(s, i + 1, end, depth, quoted);
    }
}

proof fn definitions_behind(
    front: Seq<char>,
    s: Seq<char>,
    start: int,
    i: int,
    depth: nat,
    quoted: bool,
)
    requires
        0 <= start <= i <= s.len(),
    ensures
        definitions_from(front + s, front.len() + start, front.len() + i, depth, quoted)
            == definitions_from(s, start, i, depth, quoted),
    decreases s.len() - i,
{
    let all = front + s;
    let n = front.len() as int;
    assert(all.subrange(n + start, n + i) =~= s.subrange(start, i));
    if i < s.len() {
        assert(all[n + i] == s[i]);
        if s[i] == ')' && !quoted && depth == 0 {
        } else if s[i] == '\'' {
            definitions_behind(front, s, start, i + 1, depth, !quoted);
        } else if quoted {
            definitions_behind(front, s, start, i + 1, depth, true);
        } else if s[i] == '(' {
            definitions_behind(front, s, start, i + 1, depth + 1, false);
        } else if s[i] == ')' {
            definitions_behind(front, s, start, i + 1, (depth - 1) as nat, false);
        } else if s[i] == ',' && depth == 0 {
            definitions_behind(front, s, i + 1, i + 1, 0, false);
        } else {
            definitions_behind(front, s, start, i + 1, depth, false);
        }
    }
}

/// A comma ends a definition, and what follows has definitions of its own; the closing
/// parenthesis of the table ends them all.
pub proof fn definitions_end_at_commas(def: Seq<char>, rest: Seq<char>)
    requires
        forall|k: int|
            0 <= k < def.len() ==> #[trigger] def[k] != ',' && def[k] != '(' && def[k] != ')'
                && def[k] != '\'',
        text::trimmed(def).len() > 0,
    ensures
        definitions(def + seq![','] + rest) == seq![def] + definitions(rest),
        definitions(def + seq![')'] + rest) == seq![def],
        definitions(def) == seq![def],
{
    let n = def.len() as int;
    let s = def + seq![','] + rest;
    let t = def + seq![')'] + rest;
    assert forall|k: int| 0 <= k < n implies #[trigger] s[k] != ',' && s[k] != '(' && s[k] != ')'
        && s[k] != '\'' by {
        assert(s[k] == def[k]);
    }
    assert forall|k: int| 0 <= k < n implies #[trigger] t[k] != ',' && t[k] != '(' && t[k] != ')'
        && t[k] != '\'' by {
        assert(t[k] == def[k]);
    }
    definitions_pass(s, 0, n, 0, false);
    definitions_pass(t, 0, n, 0, false);
    definitions_pass(def, 0, n, 0, false);
    assert(s[n] == ',' && t[n] == ')');
    assert(s.subrange(0, n) =~= def);
    assert(t.subrange(0, n) =~= def);
    assert(def.subrange(0, n) =~= def);
    definitions_behind(def + seq![','], rest, 0, 0, 0, false);
}

/// A comma between parentheses, or between quotes, ends no definition.
pub proof fn sizes_and_strings_hold_together(
    a: Seq<char>,
    open: char,
    b: Seq<char>,
    close: char,
    c: Seq<char>,
    rest: Seq<char>,
)
    requires
        (open == '(' && close == ')') || (open == '\'' && close == '\''),
        forall|k: int|
            0 <= k < a.len() ==> #[trigger] a[k] != ',' && a[k] != '(' && a[k] != ')' && a[k]
                != '\'',
        forall|k: int|
            0 <= k < b.len() ==> #[trigger] b[k] != '\'' && (open == '(' ==> b[k] != '(' && b[k]
                != ')'),
        forall|k: int|
            0 <= k < c.len() ==> #[trigger] c[k] != ',' && c[k] != '(' && c[k] != ')' && c[k]
                != '\'',
    ensures
        definitions(a + seq![open] + b + seq![close] + c + seq![','] + rest) == seq![
            a + seq![open] + b + seq![close] + c,
        ] + definitions(rest),
{
    let def = a + seq![open] + b + seq![close] + c;
    let s = def + seq![','] + rest;
    let x = a.len() as int;
    let y = x + 1 + b.len();
    let z = y + 1 + c.len();
    assert forall|k: int| 0 <= k < x implies #[trigger] s[k] != ',' && s[k] != '(' && s[k] != ')'
        && s[k] != '\'' by {
        assert(s[k] == a[k]);
    }
    definitions_pass(s, 0, x, 0, false);
    assert(s[x] == open);
    assert forall|k: int| x < k < y implies #[trigger] s[k] != '\'' && (open == '(' ==> s[k] != '('
        && s[k] != ')') by {
        assert(s[k] == b[k - x - 1]);
    }
    assert(s[y] == close);
    assert forall|k: int| y < k < z implies #[trigger] s[k] != ',' && s[k] != '(' && s[k] != ')'
        && s[k] != '\'' by {
        assert(s[k] == c[k - y - 1]);
    }
    if open == '(' {
        definitions_pass(s, x + 1, y, 1, false);
    } else {
        definitions_pass(s, x + 1, y, 0, true);
    }
    definitions_pass(s, y + 1, z, 0, false);
    assert(s[z] == ',');
    assert(s.subrange(0, z) =~= def);
    definitions_behind(def + seq![','], rest, 0, 0, 0, false);
    assert(s =~= a + seq![open] + b + seq![close] + c + seq![','] + rest);
}

proof fn word_reaches(s: Seq<char>, i: int, end: int)
    requires
        0 <= i <= end <= s.len(),
        forall|k: int| i <= k < end ==> !text::space(#[trigger] s[k]) && s[k] != '(',
        end < s.len() ==> text::space(s[end]) || s[end] == '(',
    ensures
        word_end(s, i) == end,
    decreases end - i,
{
    if i < end {
        word_reaches(s, i + 1, end);
    }
}

/// A definition `name type(size)` gives the column, its name in lower case, the type
/// with its size; a name between backticks or double quotes is taken as it stands.
pub proof fn sized_columns_are_read(
    name: Seq<char>,
    ty: Seq<char>,
    size: Seq<char>,
    rest: Seq<char>,
)
    requires
        ty.len() > 0,
        forall|k: int| 0 <= k < ty.len() ==> !text::space(#[trigger] ty[k]) && ty[k] != '(',
        size.len() > 0,
        forall|k: int| 0 <= k < size.len() ==> !text::space(#[trigger] size[k]) && size[k] != ')',
    ensures
        sized_type(seq![' '] + ty + seq!['('] + size + seq![')'] + rest) == Some(
            ty + seq!['('] + size + seq![')'],
        ),
{
    let tail = ty + seq!['('] + size + seq![')'] + rest;
    let s = seq![' '] + ty + seq!['('] + size + seq![')'] + rest;
    let n = ty.len() as int;
    assert(s =~= seq![' '] + tail);
    assert(s.drop_first() =~= tail);
    assert(tail[0] == ty[0]);
    assert(!text::space(ty[0]));
    reveal_with_fuel(text::trimmed_start, 2);
    assert(text::trimmed_start(s) == tail);
    assert forall|k: int| 0 <= k < n implies !text::space(#[trigger] tail[k]) && tail[k] != '(' by {
        assert(tail[k] == ty[k]);
    }
    assert(tail[n] == '(');
    word_reaches(tail, 0, n);
    let after = tail.skip(n);
    assert(after[0] == '(');
    assert(text::trimmed_start(after) == after);
    let inner = after.skip(1);
    let m = size.len() as int;
    assert(inner =~= size + seq![')'] + rest);
    assert forall|k: int| 0 <= k < m implies #[trigger] inner[k] != ')' by {
        assert(inner[k] == size[k]);
    }
    assert(inner[m] == ')');
    text::char_pos_is(inner, ')', 0, m);
    assert(inner.take(m) =~= size);
    nothing_is_dropped(size);
    assert(tail.take(n) =~= ty);
}

proof fn nothing_is_dropped(s: Seq<char>)
    requires
        forall|k: int| 0 <= k < s.len() ==> !text::space(#[trigger] s[k]),
    ensures
        without_spaces(s) == s,
    decreases s.len(),
{
    reveal(Seq::filter);
    if s.len() > 0 {
        let rest = s.drop_last();
        assert forall|k: int| 0 <= k < rest.len() implies !text::space(#[trigger] rest[k]) by {
            assert(rest[k] == s[k]);
        }
        nothing_is_dropped(rest);
        assert(!text::space(s[s.len() - 1]));
        assert(s =~= rest.push(s.last()));
    } else {
        assert(without_spaces(s) =~= s);
    }
}

/// A type without a size is not recorded.
pub proof fn types_without_size_are_not_recorded(rest: Seq<char>)
    requires
        forall|k: int| 0 <= k < rest.len() ==> #[trigger] rest[k] != '(',
    ensures
        sized_type(rest) is None,
{
    let r = text::trimmed_start(rest);
    let a = starts_late(rest);
    let end = word_end(r, 0);
    word_bounds(r, 0);
    let after = text::trimmed_start(r.skip(end));
    let b = starts_late(r.skip(end));
    if after.len() > 0 {
        assert(after[0] == rest[a + end + b]);
    }
}

proof fn word_bounds(s: Seq<char>, i: int)
    requires
        0 <= i <= s.len(),
    ensures
        i <= word_end(s, i) <= s.len(),
    decreases s.len() - i,
{
    if i < s.len() && !text::space(s[i]) && s[i] != '(' {
        word_bounds(s, i + 1);
    }
}

proof fn starts_late(s: Seq<char>) -> (m: int)
    ensures
        0 <= m <= s.len(),
        text::trimmed_start(s) == s.skip(m),
    decreases s.len(),
{
    if s.len() > 0 && text::space(s[0]) {
        let m = starts_late(s.drop_first());
        assert(s.drop_first().skip(m) =~= s.skip(m + 1));
        m + 1
    } else {
        assert(s.skip(0) =~= s);
        0
    }
}

/// What is defined by a segment: a constraint defines no column, unless its first word
/// is quoted; anything else defines the column of its name, in lower case, if its type
/// has a size.
pub proof fn constraints_define_no_column(segment: Seq<char>)
    ensures
        match name_and_rest(text::trimmed(segment)) {
            None => column_def(segment) is None,
            Some((quoted, name, rest)) => {
                let w = text::lowered(name);
                let constraint = !quoted && (w == "primary"@ || w == "unique"@ || w == "key"@ || w
                    == "index"@ || w == "fulltext"@ || w == "spatial"@ || w == "foreign"@ || w
                    == "constraint"@ || w == "check"@);
                &&& constraint ==> column_def(segment) is None
                &&& !constraint && sized_type(rest) is None ==> column_def(segment) is None
                &&& !constraint && sized_type(rest) is Some ==> column_def(segment) == Some(
                    (w, sized_type(rest)->0),
                )
            },
        },
{
}

/// A name ends at white space or a parenthesis, and a quoted one at its closing quote.
pub proof fn names_are_read(name: Seq<char>, rest: Seq<char>, q: char)
    ensures
        q == '`' || q == '"' ==> ((forall|k: int| 0 <= k < name.len() ==> #[trigger] name[k] != q)
            ==> name_and_rest(seq![q] + name + seq![q] + rest) == Some((true, name, rest))),
        name.len() > 0 && name[0] != '`' && name[0] != '"' && (rest.len() == 0 || text::space(
            rest[0],
        ) || rest[0] == '(') && (forall|k: int|
            0 <= k < name.len() ==> !text::space(#[trigger] name[k]) && name[k] != '(')
            ==> name_and_rest(name + rest) == Some((false, name, rest)),
{
    let n = name.len() as int;
    if (q == '`' || q == '"') && (forall|k: int| 0 <= k < name.len() ==> #[trigger] name[k] != q) {
        let s = seq![q] + name + seq![q] + rest;
        let after = s.skip(1);
        assert(after =~= name + seq![q] + rest);
        assert forall|k: int| 0 <= k < n implies #[trigger] after[k] != q by {
            assert(after[k] == name[k]);
        }
        assert(after[n] == q);
        text::char_pos_is(after, q, 0, n);
        assert(after.take(n) =~= name);
        assert(after.skip(n + 1) =~= rest);
        assert(s[0] == q);
    }
    if name.len() > 0 && name[0] != '`' && name[0] != '"' && (rest.len() == 0 || text::space(
        rest[0],
    ) || rest[0] == '(') && (forall|k: int|
        0 <= k < name.len() ==> !text::space(#[trigger] name[k]) && name[k] != '(') {
        let s = name + rest;
        assert(s[0] == name[0]);
        assert forall|k: int| 0 <= k < n implies !text::space(#[trigger] s[k]) && s[k] != '(' by {
            assert(s[k] == name[k]);
        }
        if rest.len() > 0 {
            assert(s[n] == rest[0]);
        }
        word_reaches(s, 0, n);
        assert(s.take(n) =~= name);
        assert(s.skip(n) =~= rest);
    }
}

} // verus!
