//! Values of the database engine.

use vstd::prelude::*;
use vstd::utf8;

use crate::numeric;
use crate::protocol::packet;
use crate::text;

verus! {

/// A value that the engine gave.
#[derive(Debug, PartialEq, Eq)]
pub enum Value {
    Null,
    Integer(i64),
    /// A floating-point number: its IEEE 754 bit pattern, and its text form.
    Real { bits: u64, text: String },
    Text(String),
    Blob(Vec<u8>),
}

/// The model of a [`Value`].
pub enum ValueView {
    Null,
    Integer(i64),
    Real { bits: u64, text: Seq<char> },
    Text(Seq<char>),
    Blob(Seq<u8>),
}

impl View for Value {
    type V = ValueView;

    open spec fn view(&self) -> ValueView {
        match *self {
            Value::Null => ValueView::Null,
            Value::Integer(i) => ValueView::Integer(i),
            Value::Real { bits, text } => ValueView::Real { bits, text: text@ },
            Value::Text(s) => ValueView::Text(s@),
            Value::Blob(b) => ValueView::Blob(b@),
        }
    }
}

impl DeepView for Value {
    type V = ValueView;

    open spec fn deep_view(&self) -> ValueView {
        self@
    }
}

/// A value as text; `None` for SQL NULL.
pub open spec fn text_of(v: ValueView) -> Option<Seq<char>> {
    match v {
        ValueView::Null => None,
        ValueView::Integer(i) => Some(numeric::signed_decimal(i as int)),
        ValueView::Real { text, .. } => Some(text),
        ValueView::Text(s) => Some(s),
        ValueView::Blob(b) => Some(text::lossy_text(b)),
    }
}

/// A value as the bytes of a text row; `None` for SQL NULL.
pub open spec fn row_bytes(v: ValueView) -> Option<Seq<u8>> {
    match v {
        ValueView::Null => None,
        ValueView::Integer(i) => Some(utf8::encode_utf8(numeric::signed_decimal(i as int))),
        ValueView::Real { text, .. } => Some(utf8::encode_utf8(text)),
        ValueView::Text(s) => Some(utf8::encode_utf8(s)),
        ValueView::Blob(b) => Some(b),
    }
}

/// Renders a value as text; `None` for SQL NULL.
pub fn value_to_string(value: &Value) -> (r: Option<String>)
    ensures
        r.deep_view() == text_of(value@),
{
    match value {
        Value::Null => None,
        Value::Integer(i) => {
            let mut out: Vec<char> = Vec::new();
            numeric::push_signed(&mut out, *i);
            assert(out@ =~= numeric::signed_decimal(*i as int));
            Some(text::string_of(&out))
        },
        Value::Real { text, .. } => Some(text.clone()),
        Value::Text(s) => Some(s.clone()),
        Value::Blob(b) => Some(text::decode_lossy(b.as_slice())),
    }
}

/// Renders a value as the bytes of a text row; `None` for SQL NULL.
pub fn value_to_text(value: &Value) -> (r: Option<Vec<u8>>)
    ensures
        match r {
            Some(bytes) => row_bytes(value@) == Some(bytes@),
            None => row_bytes(value@) is None,
        },
{
    match value {
        Value::Null => None,
        Value::Integer(i) => {
            let mut out: Vec<char> = Vec::new();
            numeric::push_signed(&mut out, *i);
            assert(out@ =~= numeric::signed_decimal(*i as int));
            let s = text::string_of(&out);
            Some(packet::copy_bytes(s.as_str().as_bytes()))
        },
        Value::Real { text, .. } => Some(packet::copy_bytes(text.as_str().as_bytes())),
        Value::Text(s) => Some(packet::copy_bytes(s.as_str().as_bytes())),
        Value::Blob(b) => Some(packet::copy_bytes(b.as_slice())),
    }
}

// ---------------------------------------------------------------------------
// Laws
// ---------------------------------------------------------------------------
/// A cell of a text row is NULL if and only if the value is, and so is the text of a
/// value.
pub proof fn only_null_is_null(v: ValueView)
    ensures
        row_bytes(v) is None <==> v is Null,
        text_of(v) is None <==> v is Null,
{
}

/// The cell of a value that is no blob holds the UTF-8 bytes of the text that the
/// value is rendered as, and the cell of a blob the bytes of the blob.
pub proof fn cell_holds_the_text(v: ValueView)
    requires
        !(v is Null),
    ensures
        !(v is Blob) ==> row_bytes(v) == Some(utf8::encode_utf8(text_of(v)->0)),
        v matches ValueView::Blob(b) ==> row_bytes(v) == Some(b),
{
}

/// Text is rendered as itself, a floating-point number as the text that came with
/// it, an integer as digits that read back as it, and a blob that is UTF-8 as the
/// text that it encodes.
pub proof fn text_tells_the_value(v: ValueView)
    ensures
        v matches ValueView::Text(s) ==> text_of(v) == Some(s),
        v matches ValueView::Real { text, .. } ==> text_of(v) == Some(text),
        v matches ValueView::Integer(i) ==> text_of(v) is Some && numeric::parsed_signed(
            text_of(v)->0,
        ) == Some(i as int),
        v matches ValueView::Blob(b) ==> (utf8::valid_utf8(b) ==> text_of(v) == Some(
            utf8::decode_utf8(b),
        )),
{
    if let ValueView::Integer(i) = v {
        numeric::signed_decimal_reads_back(i);
    }
}

} // verus!
