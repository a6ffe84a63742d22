//! Errors of decoding packets.

use vstd::prelude::*;

use crate::numeric;
use crate::text;

verus! {

/// Why a packet could not be decoded.
#[derive(Debug, PartialEq, Eq)]
pub enum ProtocolError {
    /// The packet ended inside a field.
    UnexpectedEof { offset: usize, needed: usize },
    /// A field held a value that the protocol does not permit there.
    Malformed(String),
    /// A length-encoded integer opened with the reserved byte `0xff`.
    InvalidLengthEncoding(u8),
    /// A field that must be UTF-8 was not.
    InvalidUtf8 { field: &'static str },
}

/// The model of a [`ProtocolError`].
pub enum ErrorView {
    UnexpectedEof { offset: int, needed: int },
    Malformed(Seq<char>),
    InvalidLengthEncoding(u8),
    InvalidUtf8 { field: Seq<char> },
}

impl View for ProtocolError {
    type V = ErrorView;

    open spec fn view(&self) -> ErrorView {
        match *self {
            ProtocolError::UnexpectedEof { offset, needed } => ErrorView::UnexpectedEof {
                offset: offset as int,
                needed: needed as int,
            },
            ProtocolError::Malformed(what) => ErrorView::Malformed(what@),
            ProtocolError::InvalidLengthEncoding(byte) => ErrorView::InvalidLengthEncoding(byte),
            ProtocolError::InvalidUtf8 { field } => ErrorView::InvalidUtf8 { field: field@ },
        }
    }
}

/// The hexadecimal digit for `n`, which is below sixteen.
pub open spec fn hex_digit_spec(n: int) -> char {
    if n < 10 {
        (48 + n) as char
    } else {
        (87 + n) as char
    }
}

/// A byte as two hexadecimal digits.
pub open spec fn hex_byte_spec(byte: u8) -> Seq<char> {
    seq![hex_digit_spec(byte as int / 16), hex_digit_spec(byte as int % 16)]
}

fn hex_digit(n: u8) -> (r: char)
    requires
        n < 16,
    ensures
        r == hex_digit_spec(n as int),
{
    if n < 10 {
        (48 + n) as char
    } else {
        (87 + n) as char
    }
}

/// Appends a byte as two hexadecimal digits.
pub fn push_hex_byte(out: &mut Vec<char>, byte: u8)
    ensures
        final(out)@ == old(out)@ + hex_byte_spec(byte),
{
    out.push(hex_digit(byte / 16));
    out.push(hex_digit(byte % 16));
}

/// The message of an error.
pub open spec fn message_spec(e: ErrorView) -> Seq<char> {
    match e {
        ErrorView::UnexpectedEof { offset, needed } => {
            "unexpected end of packet: needed "@ + numeric::decimal(needed as nat)
                + " more byte(s) at offset "@ + numeric::decimal(offset as nat)
        },
        ErrorView::Malformed(what) => "malformed packet: "@ + what,
        ErrorView::InvalidLengthEncoding(byte) => {
            "invalid length-encoded integer prefix 0x"@ + hex_byte_spec(byte)
        },
        ErrorView::InvalidUtf8 { field } => "invalid UTF-8 in "@ + field,
    }
}

impl ProtocolError {
    /// The error in words.
    pub fn message(&self) -> (r: String)
        ensures
            r@ == message_spec(self@),
    {
        let mut out: Vec<char> = Vec::new();
        match self {
            ProtocolError::UnexpectedEof { offset, needed } => {
                text::push_text(&mut out, "unexpected end of packet: needed ");
                numeric::push_decimal(&mut out, *needed as u64);
                text::push_text(&mut out, " more byte(s) at offset ");
                numeric::push_decimal(&mut out, *offset as u64);
            },
            ProtocolError::Malformed(what) => {
                text::push_text(&mut out, "malformed packet: ");
                text::push_text(&mut out, what.as_str());
            },
            ProtocolError::InvalidLengthEncoding(byte) => {
                text::push_text(&mut out, "invalid length-encoded integer prefix 0x");
                push_hex_byte(&mut out, *byte);
            },
            ProtocolError::InvalidUtf8 { field } => {
                text::push_text(&mut out, "invalid UTF-8 in ");
                text::push_text(&mut out, field);
            },
        }
        assert(out@ =~= message_spec(self@));
        text::string_of(&out)
    }
}

/// A byte in a message is two hexadecimal digits in lower case, the high one first.
pub proof fn hex_bytes_read_back(byte: u8)
    ensures
        ({
            let t = hex_byte_spec(byte);
            let high = if t[0] <= '9' {
                t[0] as int - '0' as int
            } else {
                t[0] as int - 'a' as int + 10
            };
            let low = if t[1] <= '9' {
                t[1] as int - '0' as int
            } else {
                t[1] as int - 'a' as int + 10
            };
            &&& t.len() == 2
            &&& '0' <= t[0] <= '9' || 'a' <= t[0] <= 'f'
            &&& '0' <= t[1] <= '9' || 'a' <= t[1] <= 'f'
            &&& 16 * high + low == byte
        }),
{
}

} // verus!
