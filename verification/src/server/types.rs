//! Column types: from what the engine declares to what the wire carries.
//!
//! A result column has a declared type if it comes from a table, and otherwise
//! an affinity at most. The declared type is preferred: it keeps the width and
//! the sign of an integer apart, which the affinity does not.

use vstd::prelude::*;
use vstd::utf8;

use crate::numeric;
use crate::protocol::constants::{collation, column_flags, column_type};
use crate::protocol::packet;
use crate::protocol::resultset::{ColumnDefinition, DefinitionView};
use crate::protocol::stmt;
use crate::protocol::stmt::{BinaryValue, BinaryView};
use crate::server::temporal;
use crate::server::value::{Value, ValueView};
use crate::text;

verus! {

/// What the wire says of a column type.
#[derive(Debug, Clone, Copy, PartialEq, Eq, Structural)]
pub struct WireType {
    pub code: u8,
    pub charset: u8,
    pub column_length: u32,
    pub decimals: u8,
    pub flags: u16,
}

/// The number of decimals of a column without a fixed scale.
pub const NOT_FIXED_DEC: u8 = 0x1f;

pub open spec fn int_wire(code: u8, column_length: u32, flags: u16) -> WireType {
    WireType {
        code,
        charset: collation::BINARY,
        column_length,
        decimals: 0,
        flags: flags | column_flags::NUM_FLAG,
    }
}

pub open spec fn float_wire(code: u8, column_length: u32, flags: u16) -> WireType {
    WireType {
        code,
        charset: collation::BINARY,
        column_length,
        decimals: NOT_FIXED_DEC,
        flags: flags | column_flags::NUM_FLAG,
    }
}

pub open spec fn temporal_wire(code: u8, column_length: u32, flags: u16) -> WireType {
    WireType { code, charset: collation::BINARY, column_length, decimals: 0, flags }
}

pub open spec fn text_wire(code: u8, flags: u16) -> WireType {
    WireType {
        code,
        charset: collation::UTF8MB4_GENERAL_CI,
        column_length: 65535,
        decimals: NOT_FIXED_DEC,
        flags,
    }
}

pub open spec fn blob_wire() -> WireType {
    WireType {
        code: column_type::MYSQL_TYPE_BLOB,
        charset: collation::BINARY,
        column_length: 65535,
        decimals: NOT_FIXED_DEC,
        flags: column_flags::BLOB_FLAG | column_flags::BINARY_FLAG,
    }
}

/// The first blank or parenthesis, or the end.
pub open spec fn base_end(s: Seq<char>, i: int) -> int
    decreases s.len() - i,
{
    if i >= s.len() || i < 0 || s[i] == ' ' || s[i] == '(' {
        i
    } else {
        base_end(s, i + 1)
    }
}

/// The base name of a declared type, in upper case: what stands before the first
/// blank or parenthesis.
pub open spec fn base_name(decl: Seq<char>) -> Seq<char> {
    let u = text::uppered(decl);
    text::trimmed(u.take(base_end(u, 0)))
}

/// The flags that a declared type calls for.
pub open spec fn decl_flags(decl: Seq<char>) -> u16 {
    let u = text::uppered(decl);
    let unsigned = if text::occurs(u, "UNSIGNED"@) {
        0u16 | column_flags::UNSIGNED_FLAG
    } else {
        0u16
    };
    if text::occurs(u, "ZEROFILL"@) {
        unsigned | column_flags::ZEROFILL_FLAG
    } else {
        unsigned
    }
}

/// The wire type of a declared type; `None` if the name is not known.
pub open spec fn declared_wire(decl: Seq<char>) -> Option<WireType> {
    let b = base_name(decl);
    let flags = decl_flags(decl);
    if b == "TINYINT"@ || b == "BOOL"@ || b == "BOOLEAN"@ {
        Some(int_wire(column_type::MYSQL_TYPE_TINY, 4, flags))
    } else if b == "SMALLINT"@ {
        Some(int_wire(column_type::MYSQL_TYPE_SHORT, 6, flags))
    } else if b == "MEDIUMINT"@ {
        Some(int_wire(column_type::MYSQL_TYPE_INT24, 9, flags))
    } else if b == "INT"@ || b == "INTEGER"@ {
        Some(int_wire(column_type::MYSQL_TYPE_LONG, 11, flags))
    } else if b == "BIGINT"@ {
        Some(int_wire(column_type::MYSQL_TYPE_LONGLONG, 20, flags))
    } else if b == "FLOAT"@ {
        Some(float_wire(column_type::MYSQL_TYPE_FLOAT, 12, flags))
    } else if b == "DOUBLE"@ || b == "REAL"@ {
        Some(float_wire(column_type::MYSQL_TYPE_DOUBLE, 22, flags))
    } else if b == "DECIMAL"@ || b == "NUMERIC"@ || b == "DEC"@ || b == "FIXED"@ {
        Some(int_wire(column_type::MYSQL_TYPE_NEWDECIMAL, 11, flags))
    } else if b == "YEAR"@ {
        Some(int_wire(column_type::MYSQL_TYPE_YEAR, 4, flags))
    } else if b == "DATE"@ {
        Some(temporal_wire(column_type::MYSQL_TYPE_DATE, 10, 0))
    } else if b == "TIME"@ {
        Some(temporal_wire(column_type::MYSQL_TYPE_TIME, 10, 0))
    } else if b == "DATETIME"@ {
        Some(temporal_wire(column_type::MYSQL_TYPE_DATETIME, 19, 0))
    } else if b == "TIMESTAMP"@ {
        Some(
            temporal_wire(column_type::MYSQL_TYPE_TIMESTAMP, 19, column_flags::TIMESTAMP_FLAG),
        )
    } else if b == "CHAR"@ || b == "CHARACTER"@ {
        Some(text_wire(column_type::MYSQL_TYPE_STRING, 0))
    } else if b == "VARCHAR"@ || b == "VARYING"@ {
        Some(text_wire(column_type::MYSQL_TYPE_VAR_STRING, 0))
    } else if b == "TEXT"@ || b == "TINYTEXT"@ || b == "MEDIUMTEXT"@ || b == "LONGTEXT"@ || b
        == "CLOB"@ {
        Some(text_wire(column_type::MYSQL_TYPE_BLOB, 0))
    } else if b == "JSON"@ {
        Some(text_wire(column_type::MYSQL_TYPE_JSON, 0))
    } else if b == "ENUM"@ {
        Some(text_wire(column_type::MYSQL_TYPE_STRING, column_flags::ENUM_FLAG))
    } else if b == "SET"@ {
        Some(text_wire(column_type::MYSQL_TYPE_STRING, column_flags::SET_FLAG))
    } else if b == "BLOB"@ || b == "TINYBLOB"@ || b == "MEDIUMBLOB"@ || b == "LONGBLOB"@ || b
        == "BINARY"@ || b == "VARBINARY"@ || b == "BYTEA"@ {
        Some(blob_wire())
    } else {
        None
    }
}

/// The wire type of an affinity: text, where there is none or an unknown one.
pub open spec fn affinity_wire(affinity: Option<Seq<char>>) -> WireType {
    if affinity == Some("INTEGER"@) {
        int_wire(column_type::MYSQL_TYPE_LONGLONG, 20, 0)
    } else if affinity == Some("REAL"@) {
        float_wire(column_type::MYSQL_TYPE_DOUBLE, 22, 0)
    } else if affinity == Some("BLOB"@) {
        blob_wire()
    } else if affinity == Some("NUMERIC"@) {
        int_wire(column_type::MYSQL_TYPE_NEWDECIMAL, 11, 0)
    } else {
        text_wire(column_type::MYSQL_TYPE_VAR_STRING, 0)
    }
}

/// The wire type of a column, by its declared type if that is known.
pub open spec fn wire_type(decltype: Option<Seq<char>>, affinity: Option<Seq<char>>) -> WireType {
    match decltype {
        Some(decl) => match declared_wire(decl) {
            Some(wire) => wire,
            None => affinity_wire(affinity),
        },
        None => affinity_wire(affinity),
    }
}

fn int_type(code: u8, column_length: u32, flags: u16) -> (r: WireType)
    ensures
        r == int_wire(code, column_length, flags),
{
    WireType {
        code,
        charset: collation::BINARY,
        column_length,
        decimals: 0,
        flags: flags | column_flags::NUM_FLAG,
    }
}

fn float_type(code: u8, column_length: u32, flags: u16) -> (r: WireType)
    ensures
        r == float_wire(code, column_length, flags),
{
    WireType {
        code,
        charset: collation::BINARY,
        column_length,
        decimals: NOT_FIXED_DEC,
        flags: flags | column_flags::NUM_FLAG,
    }
}

fn temporal_type(code: u8, column_length: u32, flags: u16) -> (r: WireType)
    ensures
        r == temporal_wire(code, column_length, flags),
{
    WireType { code, charset: collation::BINARY, column_length, decimals: 0, flags }
}

fn text_type(code: u8, flags: u16) -> (r: WireType)
    ensures
        r == text_wire(code, flags),
{
    WireType {
        code,
        charset: collation::UTF8MB4_GENERAL_CI,
        column_length: 65535,
        decimals: NOT_FIXED_DEC,
        flags,
    }
}

fn blob_type() -> (r: WireType)
    ensures
        r == blob_wire(),
{
    WireType {
        code: column_type::MYSQL_TYPE_BLOB,
        charset: collation::BINARY,
        column_length: 65535,
        decimals: NOT_FIXED_DEC,
        flags: column_flags::BLOB_FLAG | column_flags::BINARY_FLAG,
    }
}

/// Maps a declared type.
fn map_decltype(decl: &str) -> (r: Option<WireType>)
    ensures
        r == declared_wire(decl@),
{
    let upper = text::to_upper(&text::chars_of(decl));
    let mut flags: u16 = 0;
    if text::contains(&upper, &text::chars_of("UNSIGNED")) {
        flags = flags | column_flags::UNSIGNED_FLAG;
    }
    if text::contains(&upper, &text::chars_of("ZEROFILL")) {
        flags = flags | column_flags::ZEROFILL_FLAG;
    }
    let mut end: usize = 0;
    while end < upper.len() && upper[end] != ' ' && upper[end] != '('
        invariant
            end <= upper@.len(),
            base_end(upper@, 0) == base_end(upper@, end as int),
        decreases upper@.len() - end,
    {
        end = end + 1;
    }
    let head = &upper[0..end];
    assert(head@ =~= upper@.take(end as int));
    let b = text::trim(head);
    if text::is_text(b, "TINYINT") || text::is_text(b, "BOOL") || text::is_text(b, "BOOLEAN") {
        Some(int_type(column_type::MYSQL_TYPE_TINY, 4, flags))
    } else if text::is_text(b, "SMALLINT") {
        Some(int_type(column_type::MYSQL_TYPE_SHORT, 6, flags))
    } else if text::is_text(b, "MEDIUMINT") {
        Some(int_type(column_type::MYSQL_TYPE_INT24, 9, flags))
    } else if text::is_text(b, "INT") || text::is_text(b, "INTEGER") {
        Some(int_type(column_type::MYSQL_TYPE_LONG, 11, flags))
    } else if text::is_text(b, "BIGINT") {
        Some(int_type(column_type::MYSQL_TYPE_LONGLONG, 20, flags))
    } else if text::is_text(b, "FLOAT") {
        Some(float_type(column_type::MYSQL_TYPE_FLOAT, 12, flags))
    } else if text::is_text(b, "DOUBLE") || text::is_text(b, "REAL") {
        Some(float_type(column_type::MYSQL_TYPE_DOUBLE, 22, flags))
    } else if text::is_text(b, "DECIMAL") || text::is_text(b, "NUMERIC") || text::is_text(b, "DEC")
        || text::is_text(b, "FIXED") {
        Some(int_type(column_type::MYSQL_TYPE_NEWDECIMAL, 11, flags))
    } else if text::is_text(b, "YEAR") {
        Some(int_type(column_type::MYSQL_TYPE_YEAR, 4, flags))
    } else if text::is_text(b, "DATE") {
        Some(temporal_type(column_type::MYSQL_TYPE_DATE, 10, 0))
    } else if text::is_text(b, "TIME") {
        Some(temporal_type(column_type::MYSQL_TYPE_TIME, 10, 0))
    } else if text::is_text(b, "DATETIME") {
        Some(temporal_type(column_type::MYSQL_TYPE_DATETIME, 19, 0))
    } else if text::is_text(b, "TIMESTAMP") {
        Some(
            temporal_type(column_type::MYSQL_TYPE_TIMESTAMP, 19, column_flags::TIMESTAMP_FLAG),
        )
    } else if text::is_text(b, "CHAR") || text::is_text(b, "CHARACTER") {
        Some(text_type(column_type::MYSQL_TYPE_STRING, 0))
    } else if text::is_text(b, "VARCHAR") || text::is_text(b, "VARYING") {
        Some(text_type(column_type::MYSQL_TYPE_VAR_STRING, 0))
    } else if text::is_text(b, "TEXT") || text::is_text(b, "TINYTEXT") || text::is_text(
        b,
        "MEDIUMTEXT",
    ) || text::is_text(b, "LONGTEXT") || text::is_text(b, "CLOB") {
        Some(text_type(column_type::MYSQL_TYPE_BLOB, 0))
    } else if text::is_text(b, "JSON") {
        Some(text_type(column_type::MYSQL_TYPE_JSON, 0))
    } else if text::is_text(b, "ENUM") {
        Some(text_type(column_type::MYSQL_TYPE_STRING, column_flags::ENUM_FLAG))
    } else if text::is_text(b, "SET") {
        Some(text_type(column_type::MYSQL_TYPE_STRING, column_flags::SET_FLAG))
    } else if text::is_text(b, "BLOB") || text::is_text(b, "TINYBLOB") || text::is_text(
        b,
        "MEDIUMBLOB",
    ) || text::is_text(b, "LONGBLOB") || text::is_text(b, "BINARY") || text::is_text(
        b,
        "VARBINARY",
    ) || text::is_text(b, "BYTEA") {
        Some(blob_type())
    } else {
        None
    }
}

/// Maps an affinity.
fn map_affinity(affinity: Option<&str>) -> (r: WireType)
    ensures
        r == affinity_wire(affinity.deep_view()),
{
    match affinity {
        None => text_type(column_type::MYSQL_TYPE_VAR_STRING, 0),
        Some(name) => {
            let a = text::chars_of(name);
            if text::is_text(&a, "INTEGER") {
                int_type(column_type::MYSQL_TYPE_LONGLONG, 20, 0)
            } else if text::is_text(&a, "REAL") {
                float_type(column_type::MYSQL_TYPE_DOUBLE, 22, 0)
            } else if text::is_text(&a, "BLOB") {
                blob_type()
            } else if text::is_text(&a, "NUMERIC") {
                int_type(column_type::MYSQL_TYPE_NEWDECIMAL, 11, 0)
            } else {
                text_type(column_type::MYSQL_TYPE_VAR_STRING, 0)
            }
        },
    }
}

/// Maps a column to its wire type, by its declared type if that is known, and
/// otherwise by its affinity.
pub fn map_type(decltype: Option<&str>, affinity: Option<&str>) -> (r: WireType)
    ensures
        r == wire_type(decltype.deep_view(), affinity.deep_view()),
{
    if let Some(decl) = decltype {
        if let Some(wire) = map_decltype(decl) {
            return wire;
        }
    }
    map_affinity(affinity)
}

/// What the engine says of a result column.
#[derive(Debug, PartialEq, Eq)]
pub struct ColumnMeta {
    pub name: String,
    pub table: Option<String>,
    pub decltype: Option<String>,
    pub affinity: Option<String>,
}

/// The definition of a result column.
pub open spec fn definition_of(
    name: Seq<char>,
    table: Option<Seq<char>>,
    decltype: Option<Seq<char>>,
    affinity: Option<Seq<char>>,
) -> DefinitionView {
    let wire = wire_type(decltype, affinity);
    DefinitionView {
        name,
        table: match table {
            Some(t) => t,
            None => seq![],
        },
        column_type: wire.code,
        charset: wire.charset,
        column_length: wire.column_length,
        flags: wire.flags,
        decimals: wire.decimals,
    }
}

impl DeepView for ColumnMeta {
    type V = DefinitionView;

    open spec fn deep_view(&self) -> DefinitionView {
        definition_of(
            self.name@,
            self.table.deep_view(),
            self.decltype.deep_view(),
            self.affinity.deep_view(),
        )
    }
}

fn as_str(s: &Option<String>) -> (r: Option<&str>)
    ensures
        r.deep_view() == s.deep_view(),
{
    match s {
        Some(s) => Some(s.as_str()),
        None => None,
    }
}

/// Builds the definition of a result column.
pub fn column_definition(meta: &ColumnMeta) -> (r: ColumnDefinition)
    ensures
        r@ == meta.deep_view(),
{
    let wire = map_type(as_str(&meta.decltype), as_str(&meta.affinity));
    let table = match &meta.table {
        Some(t) => t.clone(),
        None => {
            let none = String::new();
            assert(none@ =~= seq![]);
            none
        },
    };
    ColumnDefinition {
        name: meta.name.clone(),
        table,
        column_type: wire.code,
        charset: wire.charset,
        column_length: wire.column_length,
        flags: wire.flags,
        decimals: wire.decimals,
    }
}

// ---------------------------------------------------------------------------
// Values
// ---------------------------------------------------------------------------
/// A value as a result column of the given type carries it. Dates and times are
/// read from their text; text that is none stays as it is.
pub open spec fn binary_of(v: ValueView, code: u8) -> BinaryView {
    match v {
        ValueView::Null => BinaryView::Null,
        ValueView::Integer(i) => BinaryView::I64(i),
        ValueView::Real { bits, .. } => BinaryView::F64(bits),
        ValueView::Blob(b) => BinaryView::Bytes(b),
        ValueView::Text(s) => {
            let raw = BinaryView::Bytes(utf8::encode_utf8(s));
            if stmt::is_date_type(code) {
                match temporal::datetime_of(s) {
                    Some(d) => d,
                    None => raw,
                }
            } else if code == column_type::MYSQL_TYPE_TIME {
                match temporal::time_of(s) {
                    Some(t) => t,
                    None => raw,
                }
            } else {
                raw
            }
        },
    }
}

/// Converts a value for a result column of the given type.
pub fn value_to_binary(value: &Value, type_code: u8) -> (r: BinaryValue)
    ensures
        r@ == binary_of(value@, type_code),
{
    match value {
        Value::Null => BinaryValue::Null,
        Value::Integer(i) => BinaryValue::I64(*i),
        Value::Real { bits, .. } => BinaryValue::F64(*bits),
        Value::Blob(b) => BinaryValue::Bytes(packet::copy_bytes(b.as_slice())),
        Value::Text(s) => {
            if type_code == column_type::MYSQL_TYPE_DATE || type_code
                == column_type::MYSQL_TYPE_DATETIME || type_code
                == column_type::MYSQL_TYPE_TIMESTAMP {
                if let Some(d) = temporal::parse_datetime(s.as_str()) {
                    return d;
                }
            } else if type_code == column_type::MYSQL_TYPE_TIME {
                if let Some(t) = temporal::parse_time(s.as_str()) {
                    return t;
                }
            }
            BinaryValue::Bytes(packet::copy_bytes(s.as_str().as_bytes()))
        },
    }
}

/// A parameter in the form in which the engine binds it. Floating-point numbers
/// are bit patterns.
#[derive(Debug, PartialEq, Eq)]
pub enum BoundValue {
    Null,
    Integer(i64),
    Single(u32),
    Double(u64),
    Text(String),
    Blob(Vec<u8>),
}

/// The model of a [`BoundValue`].
pub enum BoundView {
    Null,
    Integer(i64),
    Single(u32),
    Double(u64),
    Text(Seq<char>),
    Blob(Seq<u8>),
}

impl View for BoundValue {
    type V = BoundView;

    open spec fn view(&self) -> BoundView {
        match *self {
            BoundValue::Null => BoundView::Null,
            BoundValue::Integer(i) => BoundView::Integer(i),
            BoundValue::Single(bits) => BoundView::Single(bits),
            BoundValue::Double(bits) => BoundView::Double(bits),
            BoundValue::Text(s) => BoundView::Text(s@),
            BoundValue::Blob(b) => BoundView::Blob(b@),
        }
    }
}

/// A parameter as the engine binds it. An integer beyond 63 bits, a date and a
/// time are bound as text; bytes are bound as text if they are UTF-8.
pub open spec fn bound_of(v: BinaryView) -> BoundView {
    match v {
        BinaryView::Null => BoundView::Null,
        BinaryView::I64(i) => BoundView::Integer(i),
        BinaryView::U64(u) => if u <= i64::MAX {
            BoundView::Integer(u as i64)
        } else {
            BoundView::Text(numeric::decimal(u as nat))
        },
        BinaryView::F32(bits) => BoundView::Single(bits),
        BinaryView::F64(bits) => BoundView::Double(bits),
        BinaryView::Bytes(b) => if utf8::valid_utf8(b) {
            BoundView::Text(utf8::decode_utf8(b))
        } else {
            BoundView::Blob(b)
        },
        BinaryView::DateTime { year, month, day, hour, minute, second, micros } => BoundView::Text(
            temporal::datetime_text(year, month, day, hour, minute, second, micros),
        ),
        BinaryView::Time { negative, days, hour, minute, second, micros } => BoundView::Text(
            temporal::time_text(negative, days, hour, minute, second, micros),
        ),
    }
}

/// The hours of a duration fit in 32 bits.
pub open spec fn bindable(v: BinaryView) -> bool {
    v matches BinaryView::Time { days, hour, .. } ==> days * 24 + hour <= u32::MAX
}

/// Converts a decoded parameter for binding.
pub fn binary_to_value(value: BinaryValue) -> (r: BoundValue)
    requires
        bindable(value@),
    ensures
        r@ == bound_of(value@),
{
    match value {
        BinaryValue::Null => BoundValue::Null,
        BinaryValue::I64(i) => BoundValue::Integer(i),
        BinaryValue::U64(u) => if u <= i64::MAX as u64 {
            BoundValue::Integer(u as i64)
        } else {
            let mut out: Vec<char> = Vec::new();
            numeric::push_decimal(&mut out, u);
            assert(out@ =~= numeric::decimal(u as nat));
            BoundValue::Text(text::string_of(&out))
        },
        BinaryValue::F32(bits) => BoundValue::Single(bits),
        BinaryValue::F64(bits) => BoundValue::Double(bits),
        BinaryValue::Bytes(b) => match text::decode_str(b.as_slice()) {
            Some(s) => BoundValue::Text(s),
            None => BoundValue::Blob(b),
        },
        BinaryValue::DateTime { year, month, day, hour, minute, second, micros } => {
            BoundValue::Text(
                temporal::write_datetime(year, month, day, hour, minute, second, micros),
            )
        },
        BinaryValue::Time { negative, days, hour, minute, second, micros } => BoundValue::Text(
            temporal::write_time(negative, days, hour, minute, second, micros),
        ),
    }
}

// ---------------------------------------------------------------------------
// Laws
// ---------------------------------------------------------------------------
proof fn base_end_is(s: Seq<char>, i: int, end: int)
    requires
        0 <= i <= end <= s.len(),
        forall|k: int| i <= k < end ==> #[trigger] s[k] != ' ' && s[k] != '(',
        end < s.len() ==> s[end] == ' ' || s[end] == '(',
    ensures
        base_end(s, i) == end,
    decreases end - i,
{
    if i < end {
        base_end_is(s, i + 1, end);
    }
}

/// A declared type goes by the name in front, in any case: what follows a blank or a
/// parenthesis says nothing of it.
pub proof fn name_in_front_decides(decl: Seq<char>, name: Seq<char>, rest: Seq<char>)
    requires
        text::uppered(decl) == name + rest,
        forall|k: int| 0 <= k < name.len() ==> #[trigger] name[k] != '(' && !text::space(name[k]),
        rest.len() > 0 ==> rest[0] == ' ' || rest[0] == '(',
    ensures
        base_name(decl) == name,
{
    let u = text::uppered(decl);
    let n = name.len() as int;
    assert forall|k: int| 0 <= k < n implies #[trigger] u[k] != ' ' && u[k] != '(' by {
        assert(u[k] == name[k]);
    }
    if n < u.len() {
        assert(u[n] == rest[0]);
    }
    base_end_is(u, 0, n);
    assert(u.take(n) =~= name);
    if n > 0 {
        assert(!text::space(name[0]) && !text::space(name[n - 1]));
    }
}

/// How the names of the types are spelled.
proof fn type_names()
    ensures
        "TINYINT"@.len() == 7,
        "TINYINT"@[0] == 'T',
        "TINYINT"@[1] == 'I',
        "TINYINT"@[2] == 'N',
        "TINYINT"@[3] == 'Y',
        "TINYINT"@[4] == 'I',
        "TINYINT"@[5] == 'N',
        "TINYINT"@[6] == 'T',
        "BOOL"@.len() == 4,
        "BOOL"@[0] == 'B',
        "BOOL"@[1] == 'O',
        "BOOL"@[2] == 'O',
        "BOOL"@[3] == 'L',
        "BOOLEAN"@.len() == 7,
        "BOOLEAN"@[0] == 'B',
        "BOOLEAN"@[1] == 'O',
        "BOOLEAN"@[2] == 'O',
        "BOOLEAN"@[3] == 'L',
        "BOOLEAN"@[4] == 'E',
        "BOOLEAN"@[5] == 'A',
        "BOOLEAN"@[6] == 'N',
        "SMALLINT"@.len() == 8,
        "SMALLINT"@[0] == 'S',
        "SMALLINT"@[1] == 'M',
        "SMALLINT"@[2] == 'A',
        "SMALLINT"@[3] == 'L',
        "SMALLINT"@[4] == 'L',
        "SMALLINT"@[5] == 'I',
        "SMALLINT"@[6] == 'N',
        "SMALLINT"@[7] == 'T',
        "MEDIUMINT"@.len() == 9,
        "MEDIUMINT"@[0] == 'M',
        "MEDIUMINT"@[1] == 'E',
        "MEDIUMINT"@[2] == 'D',
        "MEDIUMINT"@[3] == 'I',
        "MEDIUMINT"@[4] == 'U',
        "MEDIUMINT"@[5] == 'M',
        "MEDIUMINT"@[6] == 'I',
        "MEDIUMINT"@[7] == 'N',
        "MEDIUMINT"@[8] == 'T',
        "INT"@.len() == 3,
        "INT"@[0] == 'I',
        "INT"@[1] == 'N',
        "INT"@[2] == 'T',
        "INTEGER"@.len() == 7,
        "INTEGER"@[0] == 'I',
        "INTEGER"@[1] == 'N',
        "INTEGER"@[2] == 'T',
        "INTEGER"@[3] == 'E',
        "INTEGER"@[4] == 'G',
        "INTEGER"@[5] == 'E',
        "INTEGER"@[6] == 'R',
        "BIGINT"@.len() == 6,
        "BIGINT"@[0] == 'B',
        "BIGINT"@[1] == 'I',
        "BIGINT"@[2] == 'G',
        "BIGINT"@[3] == 'I',
        "BIGINT"@[4] == 'N',
        "BIGINT"@[5] == 'T',
        "FLOAT"@.len() == 5,
        "FLOAT"@[0] == 'F',
        "FLOAT"@[1] == 'L',
        "FLOAT"@[2] == 'O',
        "FLOAT"@[3] == 'A',
        "FLOAT"@[4] == 'T',
        "DOUBLE"@.len() == 6,
        "DOUBLE"@[0] == 'D',
        "DOUBLE"@[1] == 'O',
        "DOUBLE"@[2] == 'U',
        "DOUBLE"@[3] == 'B',
        "DOUBLE"@[4] == 'L',
        "DOUBLE"@[5] == 'E',
        "REAL"@.len() == 4,
        "REAL"@[0] == 'R',
        "REAL"@[1] == 'E',
        "REAL"@[2] == 'A',
        "REAL"@[3] == 'L',
        "DECIMAL"@.len() == 7,
        "DECIMAL"@[0] == 'D',
        "DECIMAL"@[1] == 'E',
        "DECIMAL"@[2] == 'C',
        "DECIMAL"@[3] == 'I',
        "DECIMAL"@[4] == 'M',
        "DECIMAL"@[5] == 'A',
        "DECIMAL"@[6] == 'L',
        "NUMERIC"@.len() == 7,
        "NUMERIC"@[0] == 'N',
        "NUMERIC"@[1] == 'U',
        "NUMERIC"@[2] == 'M',
        "NUMERIC"@[3] == 'E',
        "NUMERIC"@[4] == 'R',
        "NUMERIC"@[5] == 'I',
        "NUMERIC"@[6] == 'C',
        "DEC"@.len() == 3,
        "DEC"@[0] == 'D',
        "DEC"@[1] == 'E',
        "DEC"@[2] == 'C',
        "FIXED"@.len() == 5,
        "FIXED"@[0] == 'F',
        "FIXED"@[1] == 'I',
        "FIXED"@[2] == 'X',
        "FIXED"@[3] == 'E',
        "FIXED"@[4] == 'D',
        "YEAR"@.len() == 4,
        "YEAR"@[0] == 'Y',
        "YEAR"@[1] == 'E',
        "YEAR"@[2] == 'A',
        "YEAR"@[3] == 'R',
        "DATE"@.len() == 4,
        "DATE"@[0] == 'D',
        "DATE"@[1] == 'A',
        "DATE"@[2] == 'T',
        "DATE"@[3] == 'E',
        "TIME"@.len() == 4,
        "TIME"@[0] == 'T',
        "TIME"@[1] == 'I',
        "TIME"@[2] == 'M',
        "TIME"@[3] == 'E',
        "DATETIME"@.len() == 8,
        "DATETIME"@[0] == 'D',
        "DATETIME"@[1] == 'A',
        "DATETIME"@[2] == 'T',
        "DATETIME"@[3] == 'E',
        "DATETIME"@[4] == 'T',
        "DATETIME"@[5] == 'I',
        "DATETIME"@[6] == 'M',
        "DATETIME"@[7] == 'E',
        "TIMESTAMP"@.len() == 9,
        "TIMESTAMP"@[0] == 'T',
        "TIMESTAMP"@[1] == 'I',
        "TIMESTAMP"@[2] == 'M',
        "TIMESTAMP"@[3] == 'E',
        "TIMESTAMP"@[4] == 'S',
        "TIMESTAMP"@[5] == 'T',
        "TIMESTAMP"@[6] == 'A',
        "TIMESTAMP"@[7] == 'M',
        "TIMESTAMP"@[8] == 'P',
        "CHAR"@.len() == 4,
        "CHAR"@[0] == 'C',
        "CHAR"@[1] == 'H',
        "CHAR"@[2] == 'A',
        "CHAR"@[3] == 'R',
        "CHARACTER"@.len() == 9,
        "CHARACTER"@[0] == 'C',
        "CHARACTER"@[1] == 'H',
        "CHARACTER"@[2] == 'A',
        "CHARACTER"@[3] == 'R',
        "CHARACTER"@[4] == 'A',
        "CHARACTER"@[5] == 'C',
        "CHARACTER"@[6] == 'T',
        "CHARACTER"@[7] == 'E',
        "CHARACTER"@[8] == 'R',
        "VARCHAR"@.len() == 7,
        "VARCHAR"@[0] == 'V',
        "VARCHAR"@[1] == 'A',
        "VARCHAR"@[2] == 'R',
        "VARCHAR"@[3] == 'C',
        "VARCHAR"@[4] == 'H',
        "VARCHAR"@[5] == 'A',
        "VARCHAR"@[6] == 'R',
        "VARYING"@.len() == 7,
        "VARYING"@[0] == 'V',
        "VARYING"@[1] == 'A',
        "VARYING"@[2] == 'R',
        "VARYING"@[3] == 'Y',
        "VARYING"@[4] == 'I',
        "VARYING"@[5] == 'N',
        "VARYING"@[6] == 'G',
        "TEXT"@.len() == 4,
        "TEXT"@[0] == 'T',
        "TEXT"@[1] == 'E',
        "TEXT"@[2] == 'X',
        "TEXT"@[3] == 'T',
        "TINYTEXT"@.len() == 8,
        "TINYTEXT"@[0] == 'T',
        "TINYTEXT"@[1] == 'I',
        "TINYTEXT"@[2] == 'N',
        "TINYTEXT"@[3] == 'Y',
        "TINYTEXT"@[4] == 'T',
        "TINYTEXT"@[5] == 'E',
        "TINYTEXT"@[6] == 'X',
        "TINYTEXT"@[7] == 'T',
        "MEDIUMTEXT"@.len() == 10,
        "MEDIUMTEXT"@[0] == 'M',
        "MEDIUMTEXT"@[1] == 'E',
        "MEDIUMTEXT"@[2] == 'D',
        "MEDIUMTEXT"@[3] == 'I',
        "MEDIUMTEXT"@[4] == 'U',
        "MEDIUMTEXT"@[5] == 'M',
        "MEDIUMTEXT"@[6] == 'T',
        "MEDIUMTEXT"@[7] == 'E',
        "MEDIUMTEXT"@[8] == 'X',
        "MEDIUMTEXT"@[9] == 'T',
        "LONGTEXT"@.len() == 8,
        "LONGTEXT"@[0] == 'L',
        "LONGTEXT"@[1] == 'O',
        "LONGTEXT"@[2] == 'N',
        "LONGTEXT"@[3] == 'G',
        "LONGTEXT"@[4] == 'T',
        "LONGTEXT"@[5] == 'E',
        "LONGTEXT"@[6] == 'X',
        "LONGTEXT"@[7] == 'T',
        "CLOB"@.len() == 4,
        "CLOB"@[0] == 'C',
        "CLOB"@[1] == 'L',
        "CLOB"@[2] == 'O',
        "CLOB"@[3] == 'B',
        "JSON"@.len() == 4,
        "JSON"@[0] == 'J',
        "JSON"@[1] == 'S',
        "JSON"@[2] == 'O',
        "JSON"@[3] == 'N',
        "ENUM"@.len() == 4,
        "ENUM"@[0] == 'E',
        "ENUM"@[1] == 'N',
        "ENUM"@[2] == 'U',
        "ENUM"@[3] == 'M',
        "SET"@.len() == 3,
        "SET"@[0] == 'S',
        "SET"@[1] == 'E',
        "SET"@[2] == 'T',
        "BLOB"@.len() == 4,
        "BLOB"@[0] == 'B',
        "BLOB"@[1] == 'L',
        "BLOB"@[2] == 'O',
        "BLOB"@[3] == 'B',
        "TINYBLOB"@.len() == 8,
        "TINYBLOB"@[0] == 'T',
        "TINYBLOB"@[1] == 'I',
        "TINYBLOB"@[2] == 'N',
        "TINYBLOB"@[3] == 'Y',
        "TINYBLOB"@[4] == 'B',
        "TINYBLOB"@[5] == 'L',
        "TINYBLOB"@[6] == 'O',
        "TINYBLOB"@[7] == 'B',
        "MEDIUMBLOB"@.len() == 10,
        "MEDIUMBLOB"@[0] == 'M',
        "MEDIUMBLOB"@[1] == 'E',
        "MEDIUMBLOB"@[2] == 'D',
        "MEDIUMBLOB"@[3] == 'I',
        "MEDIUMBLOB"@[4] == 'U',
        "MEDIUMBLOB"@[5] == 'M',
        "MEDIUMBLOB"@[6] == 'B',
        "MEDIUMBLOB"@[7] == 'L',
        "MEDIUMBLOB"@[8] == 'O',
        "MEDIUMBLOB"@[9] == 'B',
        "LONGBLOB"@.len() == 8,
        "LONGBLOB"@[0] == 'L',
        "LONGBLOB"@[1] == 'O',
        "LONGBLOB"@[2] == 'N',
        "LONGBLOB"@[3] == 'G',
        "LONGBLOB"@[4] == 'B',
        "LONGBLOB"@[5] == 'L',
        "LONGBLOB"@[6] == 'O',
        "LONGBLOB"@[7] == 'B',
        "BINARY"@.len() == 6,
        "BINARY"@[0] == 'B',
        "BINARY"@[1] == 'I',
        "BINARY"@[2] == 'N',
        "BINARY"@[3] == 'A',
        "BINARY"@[4] == 'R',
        "BINARY"@[5] == 'Y',
        "VARBINARY"@.len() == 9,
        "VARBINARY"@[0] == 'V',
        "VARBINARY"@[1] == 'A',
        "VARBINARY"@[2] == 'R',
        "VARBINARY"@[3] == 'B',
        "VARBINARY"@[4] == 'I',
        "VARBINARY"@[5] == 'N',
        "VARBINARY"@[6] == 'A',
        "VARBINARY"@[7] == 'R',
        "VARBINARY"@[8] == 'Y',
        "BYTEA"@.len() == 5,
        "BYTEA"@[0] == 'B',
        "BYTEA"@[1] == 'Y',
        "BYTEA"@[2] == 'T',
        "BYTEA"@[3] == 'E',
        "BYTEA"@[4] == 'A',
{
    reveal_strlit("TINYINT");
    reveal_strlit("BOOL");
    reveal_strlit("BOOLEAN");
    reveal_strlit("SMALLINT");
    reveal_strlit("MEDIUMINT");
    reveal_strlit("INT");
    reveal_strlit("INTEGER");
    reveal_strlit("BIGINT");
    reveal_strlit("FLOAT");
    reveal_strlit("DOUBLE");
    reveal_strlit("REAL");
    reveal_strlit("DECIMAL");
    reveal_strlit("NUMERIC");
    reveal_strlit("DEC");
    reveal_strlit("FIXED");
    reveal_strlit("YEAR");
    reveal_strlit("DATE");
    reveal_strlit("TIME");
    reveal_strlit("DATETIME");
    reveal_strlit("TIMESTAMP");
    reveal_strlit("CHAR");
    reveal_strlit("CHARACTER");
    reveal_strlit("VARCHAR");
    reveal_strlit("VARYING");
    reveal_strlit("TEXT");
    reveal_strlit("TINYTEXT");
    reveal_strlit("MEDIUMTEXT");
    reveal_strlit("LONGTEXT");
    reveal_strlit("CLOB");
    reveal_strlit("JSON");
    reveal_strlit("ENUM");
    reveal_strlit("SET");
    reveal_strlit("BLOB");
    reveal_strlit("TINYBLOB");
    reveal_strlit("MEDIUMBLOB");
    reveal_strlit("LONGBLOB");
    reveal_strlit("BINARY");
    reveal_strlit("VARBINARY");
    reveal_strlit("BYTEA");
}

/// The wire types of numbers, by the name of the declared type. All are marked as
/// numbers, and those that are declared so as unsigned and as filled with zeros.
#[verifier::rlimit(60)]
pub proof fn declared_numbers(decl: Seq<char>)
    ensures
        ({
            let b = base_name(decl);
            let unsigned = text::occurs(text::uppered(decl), "UNSIGNED"@);
            let zerofill = text::occurs(text::uppered(decl), "ZEROFILL"@);
            let flags: u16 = if unsigned && zerofill {
                0x8060
            } else if unsigned {
                0x8020
            } else if zerofill {
                0x8040
            } else {
                0x8000
            };
            &&& b == "TINYINT"@ || b == "BOOL"@ || b == "BOOLEAN"@ ==> declared_wire(decl) == Some(
                WireType { code: 0x01, charset: 63, column_length: 4, decimals: 0, flags: flags },
            )
            &&& b == "SMALLINT"@ ==> declared_wire(decl) == Some(
                WireType { code: 0x02, charset: 63, column_length: 6, decimals: 0, flags: flags },
            )
            &&& b == "MEDIUMINT"@ ==> declared_wire(decl) == Some(
                WireType { code: 0x09, charset: 63, column_length: 9, decimals: 0, flags: flags },
            )
            &&& b == "INT"@ || b == "INTEGER"@ ==> declared_wire(decl) == Some(
                WireType { code: 0x03, charset: 63, column_length: 11, decimals: 0, flags: flags },
            )
            &&& b == "BIGINT"@ ==> declared_wire(decl) == Some(
                WireType { code: 0x08, charset: 63, column_length: 20, decimals: 0, flags: flags },
            )
            &&& b == "FLOAT"@ ==> declared_wire(decl) == Some(
                WireType { code: 0x04, charset: 63, column_length: 12, decimals: 31, flags: flags },
            )
            &&& b == "DOUBLE"@ || b == "REAL"@ ==> declared_wire(decl) == Some(
                WireType { code: 0x05, charset: 63, column_length: 22, decimals: 31, flags: flags },
            )
            &&& b == "DECIMAL"@ || b == "NUMERIC"@ || b == "DEC"@ || b == "FIXED"@ ==> declared_wire(decl) == Some(
                WireType { code: 0xf6, charset: 63, column_length: 11, decimals: 0, flags: flags },
            )
            &&& b == "YEAR"@ ==> declared_wire(decl) == Some(
                WireType { code: 0x0d, charset: 63, column_length: 4, decimals: 0, flags: flags },
            )
        }),
{
    assert((0u16 | 0x0020) | 0x0040 == 0x0060u16 && 0u16 | 0x0020 == 0x0020u16 && 0u16 | 0x0040
        == 0x0040u16 && 0x0060u16 | 0x8000 == 0x8060u16 && 0x0020u16 | 0x8000 == 0x8020u16
        && 0x0040u16 | 0x8000 == 0x8040u16 && 0u16 | 0x8000 == 0x8000u16 && 0x0020u16 | 0x0040
        == 0x0060u16) by (bit_vector);
    type_names();
}

/// The wire types of dates, times, text and bytes, by the name of the declared type.
#[verifier::rlimit(60)]
pub proof fn declared_others(decl: Seq<char>)
    ensures
        ({
            let b = base_name(decl);
            &&& b == "DATE"@ ==> declared_wire(decl) == Some(
                WireType { code: 0x0a, charset: 63, column_length: 10, decimals: 0, flags: 0 },
            )
            &&& b == "TIME"@ ==> declared_wire(decl) == Some(
                WireType { code: 0x0b, charset: 63, column_length: 10, decimals: 0, flags: 0 },
            )
            &&& b == "DATETIME"@ ==> declared_wire(decl) == Some(
                WireType { code: 0x0c, charset: 63, column_length: 19, decimals: 0, flags: 0 },
            )
            &&& b == "TIMESTAMP"@ ==> declared_wire(decl) == Some(
                WireType { code: 0x07, charset: 63, column_length: 19, decimals: 0, flags: 0x0400 },
            )
            &&& b == "CHAR"@ || b == "CHARACTER"@ ==> declared_wire(decl) == Some(
                WireType { code: 0xfe, charset: 45, column_length: 65535, decimals: 31, flags: 0 },
            )
            &&& b == "VARCHAR"@ || b == "VARYING"@ ==> declared_wire(decl) == Some(
                WireType { code: 0xfd, charset: 45, column_length: 65535, decimals: 31, flags: 0 },
            )
            &&& b == "TEXT"@ || b == "TINYTEXT"@ || b == "MEDIUMTEXT"@ || b == "LONGTEXT"@ || b == "CLOB"@ ==> declared_wire(decl) == Some(
                WireType { code: 0xfc, charset: 45, column_length: 65535, decimals: 31, flags: 0 },
            )
            &&& b == "JSON"@ ==> declared_wire(decl) == Some(
                WireType { code: 0xf5, charset: 45, column_length: 65535, decimals: 31, flags: 0 },
            )
            &&& b == "ENUM"@ ==> declared_wire(decl) == Some(
                WireType { code: 0xfe, charset: 45, column_length: 65535, decimals: 31, flags: 0x0100 },
            )
            &&& b == "SET"@ ==> declared_wire(decl) == Some(
                WireType { code: 0xfe, charset: 45, column_length: 65535, decimals: 31, flags: 0x0800 },
            )
            &&& b == "BLOB"@ || b == "TINYBLOB"@ || b == "MEDIUMBLOB"@ || b == "LONGBLOB"@ || b == "BINARY"@ || b == "VARBINARY"@ || b == "BYTEA"@ ==> declared_wire(decl) == Some(
                WireType { code: 0xfc, charset: 63, column_length: 65535, decimals: 31, flags: 0x0090 },
            )
        }),
{
    assert(0x0010u16 | 0x0080 == 0x0090u16) by (bit_vector);
    type_names();
}

/// A column without a declared type that is known goes by its affinity, and one
/// without either is text.
pub proof fn affinity_decides_otherwise(decltype: Option<Seq<char>>, affinity: Option<Seq<char>>)
    requires
        decltype matches Some(d) ==> declared_wire(d) is None,
    ensures
        ({
            let w = wire_type(decltype, affinity);
            &&& affinity == Some("INTEGER"@) ==> w == (WireType {
                code: 0x08,
                charset: 63,
                column_length: 20,
                decimals: 0,
                flags: 0x8000,
            })
            &&& affinity == Some("REAL"@) ==> w == (WireType {
                code: 0x05,
                charset: 63,
                column_length: 22,
                decimals: 31,
                flags: 0x8000,
            })
            &&& affinity == Some("BLOB"@) ==> w == (WireType {
                code: 0xfc,
                charset: 63,
                column_length: 65535,
                decimals: 31,
                flags: 0x0090,
            })
            &&& affinity == Some("NUMERIC"@) ==> w == (WireType {
                code: 0xf6,
                charset: 63,
                column_length: 11,
                decimals: 0,
                flags: 0x8000,
            })
            &&& affinity is None || affinity == Some("TEXT"@) ==> w == (WireType {
                code: 0xfd,
                charset: 45,
                column_length: 65535,
                decimals: 31,
                flags: 0,
            })
        }),
{
    assert(0x0010u16 | 0x0080 == 0x0090u16 && 0u16 | 0x8000 == 0x8000u16) by (bit_vector);
    reveal_strlit("INTEGER");
    assert("INTEGER"@.len() == 7 && "INTEGER"@[0] == 'I' && "INTEGER"@[1] == 'N' && "INTEGER"@[2] == 'T' && "INTEGER"@[3] == 'E' && "INTEGER"@[4] == 'G' && "INTEGER"@[5] == 'E' && "INTEGER"@[6] == 'R');
    reveal_strlit("REAL");
    assert("REAL"@.len() == 4 && "REAL"@[0] == 'R' && "REAL"@[1] == 'E' && "REAL"@[2] == 'A' && "REAL"@[3] == 'L');
    reveal_strlit("BLOB");
    assert("BLOB"@.len() == 4 && "BLOB"@[0] == 'B' && "BLOB"@[1] == 'L' && "BLOB"@[2] == 'O' && "BLOB"@[3] == 'B');
    reveal_strlit("NUMERIC");
    assert("NUMERIC"@.len() == 7 && "NUMERIC"@[0] == 'N' && "NUMERIC"@[1] == 'U' && "NUMERIC"@[2] == 'M' && "NUMERIC"@[3] == 'E' && "NUMERIC"@[4] == 'R' && "NUMERIC"@[5] == 'I' && "NUMERIC"@[6] == 'C');
    reveal_strlit("TEXT");
    assert("TEXT"@.len() == 4 && "TEXT"@[0] == 'T' && "TEXT"@[1] == 'E' && "TEXT"@[2] == 'X' && "TEXT"@[3] == 'T');
}

/// A declared type that is known decides, whatever the affinity.
pub proof fn declared_type_is_preferred(decl: Seq<char>, affinity: Option<Seq<char>>)
    requires
        declared_wire(decl) is Some,
    ensures
        wire_type(Some(decl), affinity) == declared_wire(decl)->0,
{
}

/// A result column is described under its own name and table, with the type that the
/// wire carries.
pub proof fn columns_keep_their_names(
    name: Seq<char>,
    table: Option<Seq<char>>,
    decltype: Option<Seq<char>>,
    affinity: Option<Seq<char>>,
)
    ensures
        ({
            let d = definition_of(name, table, decltype, affinity);
            let w = wire_type(decltype, affinity);
            &&& d.name == name
            &&& table matches Some(t) ==> d.table == t
            &&& table is None ==> d.table.len() == 0
            &&& d.column_type == w.code && d.charset == w.charset && d.column_length
                == w.column_length && d.flags == w.flags && d.decimals == w.decimals
        }),
{
}

/// A value that a client binds as it was read is the value that was stored, unless it
/// is text in a column of dates or times.
pub proof fn values_survive_the_wire(v: ValueView, code: u8)
    requires
        v is Text ==> code != 0x07 && code != 0x0a && code != 0x0b && code != 0x0c,
    ensures
        match v {
            ValueView::Null => bound_of(binary_of(v, code)) == BoundView::Null,
            ValueView::Integer(i) => bound_of(binary_of(v, code)) == BoundView::Integer(i),
            ValueView::Real { bits, .. } => bound_of(binary_of(v, code)) == BoundView::Double(bits),
            ValueView::Text(s) => bound_of(binary_of(v, code)) == BoundView::Text(s),
            ValueView::Blob(b) => bound_of(binary_of(v, code)) == if utf8::valid_utf8(b) {
                BoundView::Text(utf8::decode_utf8(b))
            } else {
                BoundView::Blob(b)
            },
        },
{
    if let ValueView::Text(s) = v {
        utf8::encode_utf8_valid_utf8(s);
        utf8::encode_utf8_decode_utf8(s);
    }
}

/// A value keeps its kind on the wire: NULL is NULL, an integer that integer, a number
/// its bit pattern, bytes those bytes, and text its bytes, unless it denotes a date in
/// a column of dates or a time in a column of times.
pub proof fn values_keep_their_kind(v: ValueView, code: u8)
    ensures
        v is Null <==> binary_of(v, code) is Null,
        v matches ValueView::Integer(i) ==> binary_of(v, code) == BinaryView::I64(i),
        v matches ValueView::Real { bits, .. } ==> binary_of(v, code) == BinaryView::F64(bits),
        v matches ValueView::Blob(b) ==> binary_of(v, code) == BinaryView::Bytes(b),
        v matches ValueView::Text(s) ==> {
            let d = temporal::datetime_of(s);
            let t = temporal::time_of(s);
            let dated = code == 0x07 || code == 0x0a || code == 0x0c;
            &&& dated && d is Some ==> binary_of(v, code) == d->0
            &&& code == 0x0b && t is Some ==> binary_of(v, code) == t->0
            &&& !(dated && d is Some) && !(code == 0x0b && t is Some) ==> binary_of(v, code)
                == BinaryView::Bytes(utf8::encode_utf8(s))
        },
{
}

/// What the engine is given for a parameter: integers as they are, and as decimal text
/// where they do not fit in 64 bits with a sign; bit patterns as they are.
pub proof fn parameters_keep_their_value(i: i64, u: u64, single: u32, double: u64)
    ensures
        bound_of(BinaryView::Null) == BoundView::Null,
        bound_of(BinaryView::I64(i)) == BoundView::Integer(i),
        u < 0x8000_0000_0000_0000 ==> bound_of(BinaryView::U64(u)) == BoundView::Integer(u as i64),
        u >= 0x8000_0000_0000_0000 ==> (bound_of(BinaryView::U64(u)) matches BoundView::Text(t)
            && numeric::digits_value(t) == u),
        bound_of(BinaryView::F32(single)) == BoundView::Single(single),
        bound_of(BinaryView::F64(double)) == BoundView::Double(double),
{
    numeric::decimal_reads_back(u as nat);
}

} // verus!
