//! How values are written in test files.

use mysql::consts::ColumnType;
use vstd::prelude::*;

use crate::numeric;
use crate::server::temporal;
use crate::text;

verus! {

/// A value that a server sent.
#[derive(Debug, PartialEq, Eq)]
pub enum CellValue {
    Null,
    Bytes(Vec<u8>),
    Int(i64),
    UInt(u64),
    /// A floating-point number, in its text form.
    Real(String),
    /// Year, month, day, hour, minute, second and microseconds.
    Date(u16, u8, u8, u8, u8, u8, u32),
    /// Sign, days, hours, minutes, seconds and microseconds.
    Time(bool, u32, u8, u8, u8, u32),
}

/// The model of a [`CellValue`].
pub enum CellView {
    Null,
    Bytes(Seq<u8>),
    Int(i64),
    UInt(u64),
    Real(Seq<char>),
    Date(u16, u8, u8, u8, u8, u8, u32),
    Time(bool, u32, u8, u8, u8, u32),
}

impl View for CellValue {
    type V = CellView;

    open spec fn view(&self) -> CellView {
        match *self {
            CellValue::Null => CellView::Null,
            CellValue::Bytes(b) => CellView::Bytes(b@),
            CellValue::Int(i) => CellView::Int(i),
            CellValue::UInt(u) => CellView::UInt(u),
            CellValue::Real(s) => CellView::Real(s@),
            CellValue::Date(y, mo, d, h, mi, s, us) => CellView::Date(y, mo, d, h, mi, s, us),
            CellValue::Time(neg, d, h, mi, s, us) => CellView::Time(neg, d, h, mi, s, us),
        }
    }
}

impl DeepView for CellValue {
    type V = CellView;

    open spec fn deep_view(&self) -> CellView {
        self@
    }
}

/// A value as it is written in a test file.
pub open spec fn rendered(v: CellView) -> Seq<char> {
    match v {
        CellView::Null => "NULL"@,
        CellView::Bytes(b) => text::lossy_text(b),
        CellView::Int(i) => numeric::signed_decimal(i as int),
        CellView::UInt(u) => numeric::decimal(u as nat),
        CellView::Real(s) => s,
        CellView::Date(y, mo, d, h, mi, s, us) => numeric::padded(y as nat, 4) + seq!['-']
            + numeric::padded(mo as nat, 2) + seq!['-'] + numeric::padded(d as nat, 2) + seq![' ']
            + temporal::clock_text(h as nat, mi, s, us),
        CellView::Time(neg, days, h, mi, s, us) => (if neg {
            seq!['-']
        } else {
            seq![]
        }) + temporal::clock_text((days * 24 + h) as nat, mi, s, us),
    }
}

/// The hours of a duration fit in 32 bits.
pub open spec fn renderable(v: CellView) -> bool {
    v matches CellView::Time(_, days, h, _, _, _) ==> days * 24 + h <= u32::MAX
}

/// Writes a value as a test file has it.
pub fn render_value(value: &CellValue) -> (r: String)
    requires
        renderable(value@),
    ensures
        r@ == rendered(value@),
{
    let mut out: Vec<char> = Vec::new();
    match value {
        CellValue::Null => {
            text::push_text(&mut out, "NULL");
        },
        CellValue::Bytes(b) => {
            return text::decode_lossy(b.as_slice());
        },
        CellValue::Int(i) => {
            numeric::push_signed(&mut out, *i);
        },
        CellValue::UInt(u) => {
            numeric::push_decimal(&mut out, *u);
        },
        CellValue::Real(s) => {
            text::push_text(&mut out, s.as_str());
        },
        CellValue::Date(y, mo, d, h, mi, s, us) => {
            numeric::push_padded(&mut out, *y as u64, 4);
            out.push('-');
            numeric::push_padded(&mut out, *mo as u64, 2);
            out.push('-');
            numeric::push_padded(&mut out, *d as u64, 2);
            out.push(' ');
            temporal::push_clock(&mut out, *h as u64, *mi, *s, *us);
        },
        CellValue::Time(neg, days, h, mi, s, us) => {
            if *neg {
                out.push('-');
            }
            let hours: u32 = *days * 24 + *h as u32;
            temporal::push_clock(&mut out, hours as u64, *mi, *s, *us);
        },
    }
    assert(out@ =~= rendered(value@));
    text::string_of(&out)
}

/// The cells of a row as they are written in a test file.
pub open spec fn rendered_cells(cells: Seq<CellView>) -> Seq<Seq<char>> {
    Seq::new(cells.len(), |i: int| rendered(cells[i]))
}

/// Writes a row as a test file has it: its values, separated by tabs.
pub fn render_row(cells: &Vec<CellValue>) -> (r: String)
    requires
        forall|i: int| 0 <= i < cells@.len() ==> renderable((#[trigger] cells@[i])@),
    ensures
        r@ == text::joined(rendered_cells(cells.deep_view()), "\t"@),
{
    let mut texts: Vec<String> = Vec::new();
    for i in 0..cells.len()
        invariant
            forall|i: int| 0 <= i < cells@.len() ==> renderable((#[trigger] cells@[i])@),
            texts.deep_view() =~= rendered_cells(cells.deep_view()).take(i as int),
    {
        let ghost before = texts.deep_view();
        texts.push(render_value(&cells[i]));
        assert(texts.deep_view() =~= before.push(rendered(cells@[i as int]@)));
    }
    assert(texts.deep_view() =~= rendered_cells(cells.deep_view()));
    join_fields(&texts)
}

/// Puts the fields of a line together, with tabs between them.
pub fn join_fields(fields: &Vec<String>) -> (r: String)
    ensures
        r@ == text::joined(fields.deep_view(), "\t"@),
{
    text::join(fields, "\t")
}

/// A column type's short name: without the prefix `MYSQL_TYPE_`, if it has it.
pub open spec fn short_type(name: Seq<char>) -> Seq<char> {
    if text::occurs_at(name, "MYSQL_TYPE_"@, 0) {
        name.skip("MYSQL_TYPE_"@.len() as int)
    } else {
        name
    }
}

/// Shortens the name of a column type.
pub fn short_type_name(name: &str) -> (r: String)
    ensures
        r@ == short_type(name@),
{
    let chars = text::chars_of(name);
    match text::strip_prefix(&chars, &text::chars_of("MYSQL_TYPE_")) {
        Some(rest) => text::string_of(rest),
        None => text::string_of(&chars),
    }
}

/// The name of the column type with the given code, as the client library has it;
/// `None` if it has no such type.
pub uninterp spec fn client_type_name(code: u8) -> Option<Seq<char>>;

/// The name of the variant of `mysql::consts::ColumnType` that `TryFrom<u8>` gives
/// for the code, as `Debug` writes it; `None` where `TryFrom` fails.
#[verifier::external_body]
fn name_in_client(code: u8) -> (r: Option<String>)
    ensures
        r.deep_view() == client_type_name(code),
{
    match ColumnType::try_from(code) {
        Ok(column_type) => Some(format!("{column_type:?}")),
        Err(_) => None,
    }
}

/// The short name of the column type with the given code; `None` if the client
/// library has no such type.
pub fn column_type_name(code: u8) -> (r: Option<String>)
    ensures
        r.deep_view() == match client_type_name(code) {
            Some(name) => Some(short_type(name)),
            None => None,
        },
{
    match name_in_client(code) {
        Some(name) => Some(short_type_name(name.as_str())),
        None => None,
    }
}

/// A parameter as a test file gives it.
#[derive(Debug, PartialEq, Eq)]
pub enum Param {
    Null,
    Int(i64),
    /// Anything else: a floating-point number or a string.
    Word(String),
}

/// The model of a [`Param`].
pub enum ParamView {
    Null,
    Int(int),
    Word(Seq<char>),
}

impl DeepView for Param {
    type V = ParamView;

    open spec fn deep_view(&self) -> ParamView {
        match *self {
            Param::Null => ParamView::Null,
            Param::Int(i) => ParamView::Int(i as int),
            Param::Word(s) => ParamView::Word(s@),
        }
    }
}

/// The parameter that a token stands for.
pub open spec fn param_of(token: Seq<char>) -> ParamView {
    if token == "NULL"@ {
        ParamView::Null
    } else {
        match numeric::parsed_signed(token) {
            Some(i) => ParamView::Int(i),
            None => ParamView::Word(token),
        }
    }
}

/// The parameters that tokens stand for.
pub open spec fn params_of(tokens: Seq<Seq<char>>) -> Seq<ParamView> {
    Seq::new(tokens.len(), |i: int| param_of(tokens[i]))
}

/// Turns tokens into parameters: `NULL` is SQL NULL, what reads as an integer is
/// one.
pub fn to_params(tokens: &Vec<String>) -> (r: Vec<Param>)
    ensures
        r.deep_view() == params_of(tokens.deep_view()),
{
    let mut params: Vec<Param> = Vec::new();
    for i in 0..tokens.len()
        invariant
            params.deep_view() =~= params_of(tokens.deep_view()).take(i as int),
    {
        let ghost before = params.deep_view();
        let chars = text::chars_of(tokens[i].as_str());
        let param = if text::is_text(&chars, "NULL") {
            Param::Null
        } else {
            match numeric::parse_signed(&chars) {
                Some(n) => Param::Int(n),
                None => Param::Word(tokens[i].clone()),
            }
        };
        params.push(param);
        assert(params.deep_view() =~= before.push(param_of(tokens@[i as int]@)));
    }
    assert(params.deep_view() =~= params_of(tokens.deep_view()));
    params
}

// ---------------------------------------------------------------------------
// Laws
// ---------------------------------------------------------------------------
/// NULL is shown as `NULL`; a number is read back from what is shown; text and
/// floating-point numbers are shown as they are.
pub proof fn cells_are_shown(i: i64, u: u64, s: Seq<char>)
    ensures
        rendered(CellView::Null) == seq!['N', 'U', 'L', 'L'],
        numeric::parsed_signed(rendered(CellView::Int(i))) == Some(i as int),
        numeric::digits_value(rendered(CellView::UInt(u))) == u,
        rendered(CellView::Real(s)) == s,
        rendered(CellView::Bytes(vstd::utf8::encode_utf8(s))) == s,
{
    reveal_strlit("NULL");
    assert("NULL"@ =~= seq!['N', 'U', 'L', 'L']);
    numeric::signed_decimal_reads_back(i);
    numeric::decimal_reads_back(u as nat);
    vstd::utf8::encode_utf8_valid_utf8(s);
    vstd::utf8::encode_utf8_decode_utf8(s);
}

/// A date is shown with its clock time, midnight too; a duration is read back from what
/// is shown.
pub proof fn times_are_shown(
    year: u16,
    month: u8,
    day: u8,
    negative: bool,
    days: u32,
    hour: u8,
    minute: u8,
    second: u8,
    us: u32,
)
    requires
        days * 24 + hour <= u32::MAX,
        hour < 24,
        us < 1000000,
    ensures
        rendered(CellView::Date(year, month, day, hour, minute, second, us)) == temporal::date_text(
            year,
            month,
            day,
        ) + seq![' '] + temporal::clock_text(hour as nat, minute, second, us),
        temporal::time_of(rendered(CellView::Time(negative, days, hour, minute, second, us)))
            == Some(
            crate::protocol::stmt::BinaryView::Time {
                negative,
                days,
                hour,
                minute,
                second,
                micros: us,
            },
        ),
{
    temporal::time_text_reads_back(negative, days, hour, minute, second, us);
}

/// The prefix `MYSQL_TYPE_` is no part of a type's name; any other name is kept.
pub proof fn type_names_are_short(name: Seq<char>)
    ensures
        short_type("MYSQL_TYPE_"@ + name) == name,
        !text::occurs_at(name, "MYSQL_TYPE_"@, 0) ==> short_type(name) == name,
{
    let full = "MYSQL_TYPE_"@ + name;
    let n = "MYSQL_TYPE_"@.len() as int;
    assert(full.subrange(0, n) =~= "MYSQL_TYPE_"@);
    assert(full.skip(n) =~= name);
}

/// A parameter is NULL, a number, or a word: a number is the number that was written,
/// and anything that is none is kept as it is.
pub proof fn params_are_read(i: i64, token: Seq<char>)
    ensures
        param_of(seq!['N', 'U', 'L', 'L']) == ParamView::Null,
        param_of(numeric::signed_decimal(i as int)) == ParamView::Int(i as int),
        token != seq!['N', 'U', 'L', 'L'] && numeric::parsed_signed(token) is None ==> param_of(
            token,
        ) == ParamView::Word(token),
{
    reveal_strlit("NULL");
    assert("NULL"@ =~= seq!['N', 'U', 'L', 'L']);
    numeric::signed_decimal_reads_back(i);
    let d = numeric::signed_decimal(i as int);
    numeric::decimal_reads_back(
        if i < 0 {
            (-(i as int)) as nat
        } else {
            i as nat
        },
    );
    assert(d[0] != 'N') by {
        if i >= 0 {
            assert(numeric::is_digit_char(numeric::decimal(i as nat)[0]));
        }
    }
    assert("NULL"@[0] == 'N');
}

/// The cells of a row are shown one by one, at their places.
pub proof fn cells_keep_their_places(cells: Seq<CellView>, i: int)
    requires
        0 <= i < cells.len(),
    ensures
        rendered_cells(cells).len() == cells.len(),
        rendered_cells(cells)[i] == rendered(cells[i]),
{
}

} // verus!
