//! The OK, ERR and EOF packets.

use vstd::prelude::*;
use vstd::utf8;

use crate::protocol::constants::status;
use crate::protocol::constants::{EOF_HEADER, ERR_HEADER, OK_HEADER};
use crate::protocol::packet;
use crate::protocol::packet::PacketWriter;

verus! {

/// A successful reply without a result set.
#[derive(Debug, Clone)]
pub struct OkPacket {
    pub affected_rows: u64,
    pub last_insert_id: u64,
    pub status_flags: u16,
    pub warnings: u16,
    pub info: String,
}

/// The payload of an OK packet without warnings and without an info text.
pub open spec fn plain_ok(affected_rows: nat, last_insert_id: nat) -> Seq<u8> {
    seq![OK_HEADER] + packet::lenenc(affected_rows) + packet::lenenc(last_insert_id) + packet::le(
        status::SERVER_STATUS_AUTOCOMMIT as nat,
        2,
    ) + packet::le(0, 2)
}

impl Default for OkPacket {
    fn default() -> (r: Self)
        ensures
            r.affected_rows == 0,
            r.last_insert_id == 0,
            r.status_flags == status::SERVER_STATUS_AUTOCOMMIT,
            r.warnings == 0,
            r.info@ == Seq::<char>::empty(),
    {
        OkPacket {
            affected_rows: 0,
            last_insert_id: 0,
            status_flags: status::SERVER_STATUS_AUTOCOMMIT,
            warnings: 0,
            info: String::new(),
        }
    }
}

impl OkPacket {
    /// An OK packet that reports how many rows a statement changed.
    pub fn with_affected_rows(affected_rows: u64, last_insert_id: u64) -> (r: Self)
        ensures
            r.affected_rows == affected_rows,
            r.last_insert_id == last_insert_id,
            r.status_flags == status::SERVER_STATUS_AUTOCOMMIT,
            r.warnings == 0,
            r.info@ == Seq::<char>::empty(),
    {
        OkPacket {
            affected_rows,
            last_insert_id,
            status_flags: status::SERVER_STATUS_AUTOCOMMIT,
            warnings: 0,
            info: String::new(),
        }
    }

    /// The payload: the header, the two counts, the flags and warnings, and the
    /// info text up to the end.
    pub open spec fn payload(&self) -> Seq<u8> {
        seq![OK_HEADER] + packet::lenenc(self.affected_rows as nat) + packet::lenenc(
            self.last_insert_id as nat,
        ) + packet::le(self.status_flags as nat, 2) + packet::le(self.warnings as nat, 2)
            + utf8::encode_utf8(self.info@)
    }

    /// The packet's payload.
    pub fn encode(&self) -> (r: Vec<u8>)
        ensures
            r@ == self.payload(),
    {
        let mut w = PacketWriter::new();
        w.u8(OK_HEADER);
        w.lenenc_u64(self.affected_rows);
        w.lenenc_u64(self.last_insert_id);
        w.u16(self.status_flags);
        w.u16(self.warnings);
        w.bytes(self.info.as_str().as_bytes());
        assert(w@ =~= self.payload());
        w.into_bytes()
    }
}

/// Without an info text the payload is the plain one.
pub proof fn ok_payload_is_plain(ok: OkPacket)
    requires
        ok.status_flags == status::SERVER_STATUS_AUTOCOMMIT,
        ok.warnings == 0,
        ok.info@ == Seq::<char>::empty(),
    ensures
        ok.payload() == plain_ok(ok.affected_rows as nat, ok.last_insert_id as nat),
{
    assert(utf8::encode_utf8(ok.info@) =~= Seq::<u8>::empty());
    assert(ok.payload() =~= plain_ok(ok.affected_rows as nat, ok.last_insert_id as nat));
}

/// An error reply.
#[derive(Debug, Clone)]
pub struct ErrPacket {
    /// MySQL error code.
    pub code: u16,
    /// Five-character SQLSTATE.
    pub sql_state: [u8; 5],
    /// Message for the user.
    pub message: String,
}

/// The payload of an ERR packet.
pub open spec fn err_payload(code: u16, state: Seq<u8>, message: Seq<char>) -> Seq<u8> {
    seq![ERR_HEADER] + packet::le(code as nat, 2) + seq![0x23u8] + state + utf8::encode_utf8(message)
}

/// The SQLSTATE of a general error, `HY000`.
pub open spec fn general_state() -> Seq<u8> {
    seq![0x48u8, 0x59u8, 0x30u8, 0x30u8, 0x30u8]
}

impl ErrPacket {
    /// An error with the SQLSTATE of a general error.
    pub fn new(code: u16, message: &str) -> (r: Self)
        ensures
            r.code == code,
            r.sql_state@ == general_state(),
            r.message@ == message@,
    {
        let sql_state: [u8; 5] = [0x48, 0x59, 0x30, 0x30, 0x30];
        assert(sql_state@ =~= general_state());
        ErrPacket { code, sql_state, message: message.to_string() }
    }

    /// The same error with another SQLSTATE.
    pub fn with_state(self, state: [u8; 5]) -> (r: Self)
        ensures
            r.code == self.code,
            r.sql_state == state,
            r.message == self.message,
    {
        ErrPacket { code: self.code, sql_state: state, message: self.message }
    }

    /// The packet's payload: the header, the code, `#` and the SQLSTATE, and the
    /// message up to the end.
    pub fn encode(&self) -> (r: Vec<u8>)
        ensures
            r@ == err_payload(self.code, self.sql_state@, self.message@),
    {
        let mut w = PacketWriter::new();
        w.u8(ERR_HEADER);
        w.u16(self.code);
        w.u8(0x23);
        w.bytes(self.sql_state.as_slice());
        w.bytes(self.message.as_str().as_bytes());
        assert(w@ =~= err_payload(self.code, self.sql_state@, self.message@));
        w.into_bytes()
    }
}

/// The mark at the end of a column list or of a result set.
#[derive(Debug, Clone)]
pub struct EofPacket {
    pub warnings: u16,
    pub status_flags: u16,
}

/// The payload of an EOF packet.
pub open spec fn eof_payload(warnings: u16, status_flags: u16) -> Seq<u8> {
    seq![EOF_HEADER] + packet::le(warnings as nat, 2) + packet::le(status_flags as nat, 2)
}

impl Default for EofPacket {
    fn default() -> (r: Self)
        ensures
            r.warnings == 0,
            r.status_flags == 0,
    {
        EofPacket { warnings: 0, status_flags: 0 }
    }
}

impl EofPacket {
    /// An EOF packet with the given status flags.
    pub fn new(status_flags: u16) -> (r: Self)
        ensures
            r.warnings == 0,
            r.status_flags == status_flags,
    {
        EofPacket { warnings: 0, status_flags }
    }

    /// The packet's payload.
    pub fn encode(&self) -> (r: Vec<u8>)
        ensures
            r@ == eof_payload(self.warnings, self.status_flags),
    {
        let mut w = PacketWriter::new();
        w.u8(EOF_HEADER);
        w.u16(self.warnings);
        w.u16(self.status_flags);
        w.into_bytes()
    }
}

// ---------------------------------------------------------------------------
// Laws
// ---------------------------------------------------------------------------
/// The fields of an OK packet are read back in their order: a zero, the rows changed,
/// the id of the last row inserted, the flags, the warnings, and the text.
pub proof fn ok_reads_back(ok: OkPacket)
    ensures
        ({
            let b = ok.payload();
            let p = 1 + packet::lenenc(ok.affected_rows as nat).len() as int;
            let q = p + packet::lenenc(ok.last_insert_id as nat).len() as int;
            &&& b[0] == 0x00
            &&& packet::read_lenenc(b, 1) == packet::Parse::Got(ok.affected_rows as nat, p)
            &&& packet::read_lenenc(b, p) == packet::Parse::Got(
                ok.last_insert_id as nat,
                q,
            )
            &&& packet::read_uint(b, q, 2) == packet::Parse::Got(
                ok.status_flags as nat,
                q + 2,
            )
            &&& packet::read_uint(b, q + 2, 2) == packet::Parse::Got(ok.warnings as nat, q + 4)
            &&& b.skip(q + 4) == utf8::encode_utf8(ok.info@)
        }),
{
    let b = ok.payload();
    let rows = packet::lenenc(ok.affected_rows as nat);
    let id = packet::lenenc(ok.last_insert_id as nat);
    let p = 1 + rows.len() as int;
    let q = p + id.len() as int;
    packet::pow256_values();
    packet::le_reads_back(ok.status_flags as nat, 2);
    packet::le_reads_back(ok.warnings as nat, 2);
    assert(b.subrange(1, p) =~= rows);
    assert(b.subrange(p, q) =~= id);
    packet::lenenc_roundtrips(b, 1, ok.affected_rows);
    packet::lenenc_roundtrips(b, p, ok.last_insert_id);
    assert(b.subrange(q, q + 2) =~= packet::le(ok.status_flags as nat, 2));
    assert(b.subrange(q + 2, q + 4) =~= packet::le(ok.warnings as nat, 2));
    assert(b.skip(q + 4) =~= utf8::encode_utf8(ok.info@));
}

/// An OK packet without a text reports the rows and the id, no warnings, and that
/// every statement is its own transaction.
pub proof fn plain_ok_reports_autocommit(rows: u64, id: u64)
    ensures
        ({
            let b = plain_ok(rows as nat, id as nat);
            let n = b.len() as int;
            let p = 1 + packet::lenenc(rows as nat).len() as int;
            &&& b[0] == 0x00
            &&& packet::read_lenenc(b, 1) == packet::Parse::Got(rows as nat, p)
            &&& packet::read_lenenc(b, p) == packet::Parse::Got(id as nat, n - 4)
            &&& b[n - 4] == 2 && b[n - 3] == 0 && b[n - 2] == 0 && b[n - 1] == 0
        }),
{
    let b = plain_ok(rows as nat, id as nat);
    let r = packet::lenenc(rows as nat);
    let i = packet::lenenc(id as nat);
    packet::le_unfolds(2);
    packet::le_unfolds(0);
    assert(b.subrange(1, 1 + r.len() as int) =~= r);
    assert(b.subrange(1 + r.len() as int, 1 + r.len() as int + i.len() as int) =~= i);
    packet::lenenc_roundtrips(b, 1, rows);
    packet::lenenc_roundtrips(b, 1 + r.len() as int, id);
}

/// An ERR packet is `0xff`, the code with its low byte first, `#`, the five bytes of
/// the SQLSTATE, and the message.
pub proof fn err_layout(code: u16, state: Seq<u8>, message: Seq<char>)
    requires
        state.len() == 5,
    ensures
        ({
            let b = err_payload(code, state, message);
            &&& b[0] == 0xff
            &&& b[1] + 0x100 * b[2] == code
            &&& b[3] == 0x23
            &&& b.subrange(4, 9) == state
            &&& b.skip(9) == utf8::encode_utf8(message)
        }),
{
    let b = err_payload(code, state, message);
    packet::pow256_values();
    packet::le_reads_back(code as nat, 2);
    packet::le_value_unfolds(packet::le(code as nat, 2));
    assert(b.subrange(4, 9) =~= state);
    assert(b.skip(9) =~= utf8::encode_utf8(message));
}

/// An EOF packet is `0xfe`, the warnings, and the flags, each with the low byte first.
pub proof fn eof_layout(warnings: u16, status_flags: u16)
    ensures
        ({
            let b = eof_payload(warnings, status_flags);
            &&& b.len() == 5
            &&& b[0] == 0xfe
            &&& b[1] + 0x100 * b[2] == warnings
            &&& b[3] + 0x100 * b[4] == status_flags
        }),
{
    packet::pow256_values();
    packet::le_reads_back(warnings as nat, 2);
    packet::le_reads_back(status_flags as nat, 2);
    packet::le_value_unfolds(packet::le(warnings as nat, 2));
    packet::le_value_unfolds(packet::le(status_flags as nat, 2));
}

/// The SQLSTATE of a general error is `HY000`.
pub proof fn general_state_is_hy000()
    ensures
        general_state() == utf8::encode_utf8("HY000"@),
{
    reveal_strlit("HY000");
    let s = "HY000"@;
    assert(utf8::is_ascii_chars(s));
    utf8::is_ascii_chars_encode_utf8(s);
    let b = utf8::encode_utf8(s);
    assert(s[0] as u8 == b[0] && s[1] as u8 == b[1] && s[2] as u8 == b[2] && s[3] as u8 == b[3]
        && s[4] as u8 == b[4]);
    assert(general_state() =~= b);
}

} // verus!
