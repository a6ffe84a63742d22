//! Error replies.
//!
//! Clients branch on the error code, so an engine error is given the code that a
//! MySQL server reports for it. The engine says what went wrong in words, and the
//! words decide.

use vstd::prelude::*;

use crate::numeric;
use crate::parser::error;
use crate::parser::error::{ParseError, ParseErrorView};
use crate::protocol::frame;
use crate::protocol::response;
use crate::protocol::response::ErrPacket;
use crate::server::reply;
use crate::text;

verus! {

/// A general error.
pub const ER_ERROR_GENERAL: u16 = 1105;

/// A syntax error.
pub const ER_PARSE_ERROR: u16 = 1064;

/// A statement that is known but cannot be run.
pub const ER_NOT_SUPPORTED_YET: u16 = 1235;

/// A table that does not exist.
pub const ER_NO_SUCH_TABLE: u16 = 1146;

/// A write that breaks a unique or primary key.
pub const ER_DUP_ENTRY: u16 = 1062;

/// NULL in a column that is not nullable.
pub const ER_BAD_NULL_ERROR: u16 = 1048;

/// A column that does not exist.
pub const ER_BAD_FIELD_ERROR: u16 = 1054;

/// A table that exists already.
pub const ER_TABLE_EXISTS_ERROR: u16 = 1050;

/// What kind of error the engine raised, with its own words on it.
#[derive(Debug, PartialEq, Eq)]
pub enum EngineError {
    /// A constraint was violated.
    Constraint(String),
    /// A name could not be resolved, or the statement makes no sense.
    ParseError(String),
    /// Anything else.
    Other,
}

/// The model of an [`EngineError`].
pub enum EngineErrorView {
    Constraint(Seq<char>),
    ParseError(Seq<char>),
    Other,
}

impl View for EngineError {
    type V = EngineErrorView;

    open spec fn view(&self) -> EngineErrorView {
        match *self {
            EngineError::Constraint(msg) => EngineErrorView::Constraint(msg@),
            EngineError::ParseError(msg) => EngineErrorView::ParseError(msg@),
            EngineError::Other => EngineErrorView::Other,
        }
    }
}

/// An error of the engine, and the message that it shows.
#[derive(Debug, PartialEq, Eq)]
pub struct Failure {
    pub error: EngineError,
    pub message: String,
}

/// The model of a [`Failure`].
pub struct FailureView {
    pub error: EngineErrorView,
    pub message: Seq<char>,
}

impl View for Failure {
    type V = FailureView;

    open spec fn view(&self) -> FailureView {
        FailureView { error: self.error@, message: self.message@ }
    }
}

/// The code and the SQLSTATE of a general error.
pub open spec fn general() -> (u16, Seq<u8>) {
    (ER_ERROR_GENERAL, response::general_state())
}

/// The SQLSTATE of a violated constraint, `23000`.
pub open spec fn constraint_state() -> Seq<u8> {
    seq![0x32u8, 0x33u8, 0x30u8, 0x30u8, 0x30u8]
}

/// The SQLSTATE of a syntax error, `42000`.
pub open spec fn syntax_state() -> Seq<u8> {
    seq![0x34u8, 0x32u8, 0x30u8, 0x30u8, 0x30u8]
}

/// The SQLSTATEs `42S01`, `42S02` and `42S22`.
pub open spec fn name_state(a: u8, b: u8) -> Seq<u8> {
    seq![0x34u8, 0x32u8, 0x53u8, a, b]
}

/// The error code and the SQLSTATE for an engine error.
pub open spec fn code_and_state(e: EngineErrorView) -> (u16, Seq<u8>) {
    match e {
        EngineErrorView::Constraint(msg) => {
            let m = text::uppered(msg);
            if text::occurs(m, "UNIQUE CONSTRAINT"@) {
                (ER_DUP_ENTRY, constraint_state())
            } else if text::occurs(m, "NOT NULL CONSTRAINT"@) {
                (ER_BAD_NULL_ERROR, constraint_state())
            } else {
                general()
            }
        },
        EngineErrorView::ParseError(msg) => {
            let m = text::lowered(msg);
            if text::occurs(m, "such table"@) {
                (ER_NO_SUCH_TABLE, name_state(0x30, 0x32))
            } else if text::occurs(m, "such column"@) || text::occurs(m, "column named"@) {
                (ER_BAD_FIELD_ERROR, name_state(0x32, 0x32))
            } else if text::occurs(m, "already exists"@) {
                (ER_TABLE_EXISTS_ERROR, name_state(0x30, 0x31))
            } else {
                general()
            }
        },
        EngineErrorView::Other => general(),
    }
}

/// Finds the error code and the SQLSTATE for an engine error.
pub fn error_code_and_state(error: &EngineError) -> (r: (u16, [u8; 5]))
    ensures
        (r.0, r.1@) == code_and_state(error@),
{
    let hy000: [u8; 5] = [0x48, 0x59, 0x30, 0x30, 0x30];
    assert(hy000@ =~= response::general_state());
    match error {
        EngineError::Constraint(msg) => {
            let m = text::to_upper(&text::chars_of(msg.as_str()));
            let state: [u8; 5] = [0x32, 0x33, 0x30, 0x30, 0x30];
            assert(state@ =~= constraint_state());
            if text::contains(&m, &text::chars_of("UNIQUE CONSTRAINT")) {
                (ER_DUP_ENTRY, state)
            } else if text::contains(&m, &text::chars_of("NOT NULL CONSTRAINT")) {
                (ER_BAD_NULL_ERROR, state)
            } else {
                (ER_ERROR_GENERAL, hy000)
            }
        },
        EngineError::ParseError(msg) => {
            let m = text::to_lower(&text::chars_of(msg.as_str()));
            if text::contains(&m, &text::chars_of("such table")) {
                let state: [u8; 5] = [0x34, 0x32, 0x53, 0x30, 0x32];
                assert(state@ =~= name_state(0x30, 0x32));
                (ER_NO_SUCH_TABLE, state)
            } else if text::contains(&m, &text::chars_of("such column")) || text::contains(
                &m,
                &text::chars_of("column named"),
            ) {
                let state: [u8; 5] = [0x34, 0x32, 0x53, 0x32, 0x32];
                assert(state@ =~= name_state(0x32, 0x32));
                (ER_BAD_FIELD_ERROR, state)
            } else if text::contains(&m, &text::chars_of("already exists")) {
                let state: [u8; 5] = [0x34, 0x32, 0x53, 0x30, 0x31];
                assert(state@ =~= name_state(0x30, 0x31));
                (ER_TABLE_EXISTS_ERROR, state)
            } else {
                (ER_ERROR_GENERAL, hy000)
            }
        },
        EngineError::Other => (ER_ERROR_GENERAL, hy000),
    }
}

/// The reply to a statement that the engine failed.
pub open spec fn error_reply(seq: u8, f: FailureView) -> Seq<u8> {
    let (code, state) = code_and_state(f.error);
    frame::frames(seq, response::err_payload(code, state, f.message))
}

/// Frames the reply to a statement that the engine failed.
pub fn error_response(seq: u8, failure: &Failure) -> (r: Vec<u8>)
    ensures
        r@ == error_reply(seq, failure@),
{
    let (code, state) = error_code_and_state(&failure.error);
    let err = ErrPacket::new(code, failure.message.as_str()).with_state(state);
    reply::encode_packet(seq, &err.encode())
}

/// The reply to a statement about a table that does not exist.
pub open spec fn no_such_table_reply(seq: u8, table: Seq<char>) -> Seq<u8> {
    frame::frames(
        seq,
        response::err_payload(
            ER_NO_SUCH_TABLE,
            name_state(0x30, 0x32),
            "Table '"@ + table + "' doesn't exist"@,
        ),
    )
}

/// Frames the reply to a statement about a table that does not exist.
pub fn no_such_table_response(first_seq: u8, table: &str) -> (r: Vec<u8>)
    ensures
        r@ == no_such_table_reply(first_seq, table@),
{
    let mut message = text::chars_of("Table '");
    text::push_text(&mut message, table);
    text::push_text(&mut message, "' doesn't exist");
    let state: [u8; 5] = [0x34, 0x32, 0x53, 0x30, 0x32];
    assert(state@ =~= name_state(0x30, 0x32));
    let err = ErrPacket::new(ER_NO_SUCH_TABLE, text::string_of(&message).as_str()).with_state(
        state,
    );
    reply::encode_packet(first_seq, &err.encode())
}

/// The reply to a statement that could not be read.
pub open spec fn parse_error_reply(seq: u8, e: ParseErrorView) -> Seq<u8> {
    frame::frames(
        seq,
        response::err_payload(
            if e is Unsupported {
                ER_NOT_SUPPORTED_YET
            } else {
                ER_PARSE_ERROR
            },
            syntax_state(),
            error::message_spec(e),
        ),
    )
}

/// Frames the reply to a statement that could not be read.
pub fn parse_error_response(first_seq: u8, error: &ParseError) -> (r: Vec<u8>)
    ensures
        r@ == parse_error_reply(first_seq, error@),
{
    let code: u16 = match error {
        ParseError::Unsupported(_) => ER_NOT_SUPPORTED_YET,
        _ => ER_PARSE_ERROR,
    };
    let state: [u8; 5] = [0x34, 0x32, 0x30, 0x30, 0x30];
    assert(state@ =~= syntax_state());
    let err = ErrPacket::new(code, error.message().as_str()).with_state(state);
    reply::encode_packet(first_seq, &err.encode())
}

/// The reply with a general error.
pub open spec fn general_error_reply(seq: u8, message: Seq<char>) -> Seq<u8> {
    frame::frames(
        seq,
        response::err_payload(ER_ERROR_GENERAL, response::general_state(), message),
    )
}

/// Frames the reply with a general error.
pub fn general_error_response(seq: u8, message: &str) -> (r: Vec<u8>)
    ensures
        r@ == general_error_reply(seq, message@),
{
    let err = ErrPacket::new(ER_ERROR_GENERAL, message);
    reply::encode_packet(seq, &err.encode())
}

/// The reply to a command about a statement that was not prepared.
pub open spec fn unknown_statement_reply(seq: u8, id: u32) -> Seq<u8> {
    general_error_reply(seq, "unknown prepared statement id "@ + numeric::decimal(id as nat))
}

/// Frames the reply to a command about a statement that was not prepared.
pub fn unknown_statement_response(seq: u8, id: u32) -> (r: Vec<u8>)
    ensures
        r@ == unknown_statement_reply(seq, id),
{
    let mut message = text::chars_of("unknown prepared statement id ");
    numeric::push_decimal(&mut message, id as u64);
    general_error_response(seq, text::string_of(&message).as_str())
}

// ---------------------------------------------------------------------------
// Laws
// ---------------------------------------------------------------------------
/// The SQLSTATEs as the bytes of their texts.
pub proof fn states_are_texts()
    ensures
        constraint_state() == vstd::utf8::encode_utf8("23000"@),
        syntax_state() == vstd::utf8::encode_utf8("42000"@),
        name_state(0x30, 0x31) == vstd::utf8::encode_utf8("42S01"@),
        name_state(0x30, 0x32) == vstd::utf8::encode_utf8("42S02"@),
        name_state(0x32, 0x32) == vstd::utf8::encode_utf8("42S22"@),
{
    reveal_strlit("23000");
    reveal_strlit("42000");
    reveal_strlit("42S01");
    reveal_strlit("42S02");
    reveal_strlit("42S22");
    five_bytes("23000"@);
    five_bytes("42000"@);
    five_bytes("42S01"@);
    five_bytes("42S02"@);
    five_bytes("42S22"@);
}

proof fn five_bytes(s: Seq<char>)
    requires
        s.len() == 5,
        vstd::utf8::is_ascii_chars(s),
    ensures
        vstd::utf8::encode_utf8(s) == seq![
            s[0] as u8,
            s[1] as u8,
            s[2] as u8,
            s[3] as u8,
            s[4] as u8,
        ],
{
    vstd::utf8::is_ascii_chars_encode_utf8(s);
    let b = vstd::utf8::encode_utf8(s);
    assert(s[0] as u8 == b[0] && s[1] as u8 == b[1] && s[2] as u8 == b[2] && s[3] as u8 == b[3]
        && s[4] as u8 == b[4]);
    assert(b =~= seq![s[0] as u8, s[1] as u8, s[2] as u8, s[3] as u8, s[4] as u8]);
}

/// The codes that clients branch on, by the words of the engine in any case: 1062 for
/// a unique key that is taken, 1048 for NULL where there may be none, 1146 for a table
/// that is missing, 1054 for a column that is missing, 1050 for a table that exists,
/// and 1105 for anything else.
pub proof fn words_decide_the_code(msg: Seq<char>)
    ensures
        ({
            let c = code_and_state(EngineErrorView::Constraint(msg));
            let unique = text::occurs(text::uppered(msg), "UNIQUE CONSTRAINT"@);
            let not_null = text::occurs(text::uppered(msg), "NOT NULL CONSTRAINT"@);
            &&& unique ==> c == (1062u16, vstd::utf8::encode_utf8("23000"@))
            &&& not_null && !unique ==> c == (1048u16, vstd::utf8::encode_utf8("23000"@))
            &&& !unique && !not_null ==> c == (1105u16, vstd::utf8::encode_utf8("HY000"@))
        }),
        ({
            let p = code_and_state(EngineErrorView::ParseError(msg));
            let m = text::lowered(msg);
            let table = text::occurs(m, "such table"@);
            let column = text::occurs(m, "such column"@) || text::occurs(m, "column named"@);
            let exists_already = text::occurs(m, "already exists"@);
            &&& table ==> p == (1146u16, vstd::utf8::encode_utf8("42S02"@))
            &&& column && !table ==> p == (1054u16, vstd::utf8::encode_utf8("42S22"@))
            &&& exists_already && !table && !column ==> p == (
                1050u16,
                vstd::utf8::encode_utf8("42S01"@),
            )
            &&& !exists_already && !table && !column ==> p == (
                1105u16,
                vstd::utf8::encode_utf8("HY000"@),
            )
        }),
        code_and_state(EngineErrorView::Other) == (1105u16, vstd::utf8::encode_utf8("HY000"@)),
{
    states_are_texts();
    response::general_state_is_hy000();
}

/// The packet with an error that a client reads from a reply: `0xff`, the code, `#`,
/// the SQLSTATE, and the message.
pub open spec fn carries_error(
    reply: Seq<u8>,
    seq: u8,
    code: int,
    state: Seq<char>,
    message: Seq<char>,
) -> bool {
    &&& reply[3] == seq
    &&& frame::packet_at(reply, 0) matches Some((b, end)) && {
        &&& end == reply.len()
        &&& b[0] == 0xff
        &&& b[1] + 0x100 * b[2] == code
        &&& b[3] == 0x23
        &&& b.subrange(4, 9) == vstd::utf8::encode_utf8(state)
        &&& b.skip(9) == vstd::utf8::encode_utf8(message)
    }
}

proof fn framed_error_is_carried(
    seq: u8,
    code: u16,
    state: Seq<u8>,
    text: Seq<char>,
    message: Seq<char>,
)
    requires
        state.len() == 5,
        state == vstd::utf8::encode_utf8(text),
    ensures
        carries_error(
            frame::frames(seq, response::err_payload(code, state, message)),
            seq,
            code as int,
            text,
            message,
        ),
{
    let b = response::err_payload(code, state, message);
    frame::frames_roundtrip(seq, b, seq![]);
    assert(frame::frames(seq, b) + Seq::<u8>::empty() =~= frame::frames(seq, b));
    response::err_layout(code, state, message);
}

/// The reply to a statement that the engine failed carries the code and the SQLSTATE
/// of the engine's error, and its own message.
pub proof fn engine_error_is_carried(seq: u8, f: FailureView)
    ensures
        exists|state: Seq<char>|
            code_and_state(f.error).1 == vstd::utf8::encode_utf8(state) && #[trigger] carries_error(
                error_reply(seq, f),
                seq,
                code_and_state(f.error).0 as int,
                state,
                f.message,
            ),
{
    states_are_texts();
    response::general_state_is_hy000();
    let (code, state) = code_and_state(f.error);
    let t = if state == constraint_state() {
        "23000"@
    } else if state == name_state(0x30, 0x31) {
        "42S01"@
    } else if state == name_state(0x30, 0x32) {
        "42S02"@
    } else if state == name_state(0x32, 0x32) {
        "42S22"@
    } else {
        "HY000"@
    };
    framed_error_is_carried(seq, code, state, t, f.message);
    assert(carries_error(
        error_reply(seq, f),
        seq,
        code_and_state(f.error).0 as int,
        t,
        f.message,
    ));
}

/// The reply about a table that is missing carries 1146 and the table's name.
pub proof fn missing_table_is_carried(seq: u8, table: Seq<char>)
    ensures
        carries_error(
            no_such_table_reply(seq, table),
            seq,
            1146,
            "42S02"@,
            "Table '"@ + table + "' doesn't exist"@,
        ),
{
    states_are_texts();
    framed_error_is_carried(
        seq,
        1146,
        name_state(0x30, 0x32),
        "42S02"@,
        "Table '"@ + table + "' doesn't exist"@,
    );
}

/// The reply to a statement that could not be read carries 1064, or 1235 where the
/// statement is merely not supported.
pub proof fn parse_error_is_carried(seq: u8, e: ParseErrorView)
    ensures
        carries_error(
            parse_error_reply(seq, e),
            seq,
            if e is Unsupported {
                1235
            } else {
                1064
            },
            "42000"@,
            error::message_spec(e),
        ),
{
    states_are_texts();
    let code: u16 = if e is Unsupported {
        1235
    } else {
        1064
    };
    framed_error_is_carried(seq, code, syntax_state(), "42000"@, error::message_spec(e));
}

/// A general error carries 1105 and its message; a statement that was never prepared
/// is one, and its id is told.
pub proof fn general_error_is_carried(seq: u8, message: Seq<char>, id: u32)
    ensures
        carries_error(general_error_reply(seq, message), seq, 1105, "HY000"@, message),
        unknown_statement_reply(seq, id) == general_error_reply(
            seq,
            "unknown prepared statement id "@ + numeric::decimal(id as nat),
        ),
{
    response::general_state_is_hy000();
    framed_error_is_carried(seq, 1105, response::general_state(), "HY000"@, message);
}

} // verus!
