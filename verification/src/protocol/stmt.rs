//! The binary protocol of prepared statements: the prepare reply, the parameters
//! of an execution, and binary rows.
//!
//! A floating-point value is held as the bit pattern that the wire carries.
//! Turning a pattern into a number, and a number into the pattern for a column,
//! is left to the caller.

use vstd::prelude::*;
use vstd::utf8;

use crate::numeric;
use crate::protocol::constants::OK_HEADER;
use crate::protocol::constants::column_type;
use crate::protocol::error::{ErrorView, ProtocolError};
use crate::protocol::packet;
use crate::protocol::packet::{PacketReader, PacketWriter, Parse};
use crate::text;

verus! {

/// A value of the binary protocol.
#[derive(Debug, Clone, PartialEq, Eq)]
pub enum BinaryValue {
    Null,
    /// A signed integer.
    I64(i64),
    /// An unsigned integer that does not fit in `i64`.
    U64(u64),
    /// A `FLOAT`, as its IEEE 754 bit pattern.
    F32(u32),
    /// A `DOUBLE`, as its IEEE 754 bit pattern.
    F64(u64),
    /// A string, blob, decimal or JSON value.
    Bytes(Vec<u8>),
    /// A `DATE`, `DATETIME` or `TIMESTAMP`.
    DateTime {
        year: u16,
        month: u8,
        day: u8,
        hour: u8,
        minute: u8,
        second: u8,
        micros: u32,
    },
    /// A `TIME`, which is a signed duration.
    Time { negative: bool, days: u32, hour: u8, minute: u8, second: u8, micros: u32 },
}

/// The model of a [`BinaryValue`].
pub enum BinaryView {
    Null,
    I64(i64),
    U64(u64),
    F32(u32),
    F64(u64),
    Bytes(Seq<u8>),
    DateTime { year: u16, month: u8, day: u8, hour: u8, minute: u8, second: u8, micros: u32 },
    Time { negative: bool, days: u32, hour: u8, minute: u8, second: u8, micros: u32 },
}

impl View for BinaryValue {
    type V = BinaryView;

    open spec fn view(&self) -> BinaryView {
        match *self {
            BinaryValue::Null => BinaryView::Null,
            BinaryValue::I64(i) => BinaryView::I64(i),
            BinaryValue::U64(u) => BinaryView::U64(u),
            BinaryValue::F32(bits) => BinaryView::F32(bits),
            BinaryValue::F64(bits) => BinaryView::F64(bits),
            BinaryValue::Bytes(b) => BinaryView::Bytes(b@),
            BinaryValue::DateTime { year, month, day, hour, minute, second, micros } => {
                BinaryView::DateTime { year, month, day, hour, minute, second, micros }
            },
            BinaryValue::Time { negative, days, hour, minute, second, micros } => {
                BinaryView::Time { negative, days, hour, minute, second, micros }
            },
        }
    }
}

impl DeepView for BinaryValue {
    type V = BinaryView;

    open spec fn deep_view(&self) -> BinaryView {
        self@
    }
}

/// The reply to a prepare: the statement's id and its parameter and column counts.
#[derive(Debug, Clone)]
pub struct StmtPrepareOk {
    pub statement_id: u32,
    pub num_columns: u16,
    pub num_params: u16,
    pub warning_count: u16,
}

/// The payload of a prepare reply.
pub open spec fn prepare_ok_payload(
    statement_id: u32,
    num_columns: u16,
    num_params: u16,
    warning_count: u16,
) -> Seq<u8> {
    seq![OK_HEADER] + packet::le(statement_id as nat, 4) + packet::le(num_columns as nat, 2)
        + packet::le(num_params as nat, 2) + seq![0u8] + packet::le(warning_count as nat, 2)
}

impl StmtPrepareOk {
    /// The packet's payload.
    pub fn encode(&self) -> (r: Vec<u8>)
        ensures
            r@ == prepare_ok_payload(
                self.statement_id,
                self.num_columns,
                self.num_params,
                self.warning_count,
            ),
    {
        let mut w = PacketWriter::with_capacity(12);
        w.u8(OK_HEADER);
        w.u32(self.statement_id);
        w.u16(self.num_columns);
        w.u16(self.num_params);
        w.u8(0x00);
        w.u16(self.warning_count);
        w.into_bytes()
    }
}

// ---------------------------------------------------------------------------
// Values of parameters
// ---------------------------------------------------------------------------
/// The integer in a field of `width` bytes that holds `raw`. A signed field is
/// read in two's complement; an unsigned one that overflows `i64` stays unsigned.
pub open spec fn int_value_spec(raw: nat, width: nat, unsigned: bool) -> BinaryView {
    if unsigned {
        if raw > i64::MAX {
            BinaryView::U64(raw as u64)
        } else {
            BinaryView::I64(raw as i64)
        }
    } else if raw >= packet::pow256(width) / 2 {
        BinaryView::I64((raw - packet::pow256(width)) as i64)
    } else {
        BinaryView::I64(raw as i64)
    }
}

/// Widens an integer field of `width` bytes.
fn int_value(raw: u64, width: usize, unsigned: bool) -> (r: BinaryValue)
    requires
        width == 1 || width == 2 || width == 4 || width == 8,
        raw < packet::pow256(width as nat),
    ensures
        r@ == int_value_spec(raw as nat, width as nat, unsigned),
{
    proof {
        reveal_with_fuel(packet::pow256, 9);
    }
    if unsigned {
        if raw > i64::MAX as u64 {
            BinaryValue::U64(raw)
        } else {
            BinaryValue::I64(raw as i64)
        }
    } else if width == 1 && raw >= 0x80 {
        BinaryValue::I64(raw as i64 - 0x100)
    } else if width == 2 && raw >= 0x8000 {
        BinaryValue::I64(raw as i64 - 0x1_0000)
    } else if width == 4 && raw >= 0x8000_0000 {
        BinaryValue::I64(raw as i64 - 0x1_0000_0000)
    } else if raw >= 0x8000_0000_0000_0000 {
        BinaryValue::I64((raw - 0x8000_0000_0000_0000) as i64 + i64::MIN)
    } else {
        BinaryValue::I64(raw as i64)
    }
}

/// An integer field of `width` bytes.
pub open spec fn read_int(buf: Seq<u8>, pos: int, width: nat, unsigned: bool) -> Parse<BinaryView> {
    match packet::read_uint(buf, pos, width as int) {
        Parse::Failed(e, at) => Parse::Failed(e, at),
        Parse::Got(raw, next) => Parse::Got(int_value_spec(raw, width, unsigned), next),
    }
}

/// A year, a month and a day.
pub open spec fn read_date(buf: Seq<u8>, pos: int) -> Parse<(u16, u8, u8)> {
    match packet::read_uint(buf, pos, 2) {
        Parse::Failed(e, at) => Parse::Failed(e, at),
        Parse::Got(year, p) => match packet::read_uint(buf, p, 1) {
            Parse::Failed(e, at) => Parse::Failed(e, at),
            Parse::Got(month, p) => match packet::read_uint(buf, p, 1) {
                Parse::Failed(e, at) => Parse::Failed(e, at),
                Parse::Got(day, p) => Parse::Got((year as u16, month as u8, day as u8), p),
            },
        },
    }
}

/// An hour, a minute and a second.
pub open spec fn read_clock(buf: Seq<u8>, pos: int) -> Parse<(u8, u8, u8)> {
    match packet::read_uint(buf, pos, 1) {
        Parse::Failed(e, at) => Parse::Failed(e, at),
        Parse::Got(hour, p) => match packet::read_uint(buf, p, 1) {
            Parse::Failed(e, at) => Parse::Failed(e, at),
            Parse::Got(minute, p) => match packet::read_uint(buf, p, 1) {
                Parse::Failed(e, at) => Parse::Failed(e, at),
                Parse::Got(second, p) => Parse::Got((hour as u8, minute as u8, second as u8), p),
            },
        },
    }
}

/// A packed date and time: a length byte says which parts follow.
pub open spec fn read_datetime(buf: Seq<u8>, pos: int) -> Parse<BinaryView> {
    match packet::read_uint(buf, pos, 1) {
        Parse::Failed(e, at) => Parse::Failed(e, at),
        Parse::Got(len, p) => match if len >= 4 {
            read_date(buf, p)
        } else {
            Parse::Got((0, 0, 0), p)
        } {
            Parse::Failed(e, at) => Parse::Failed(e, at),
            Parse::Got(date, p) => match if len >= 7 {
                read_clock(buf, p)
            } else {
                Parse::Got((0, 0, 0), p)
            } {
                Parse::Failed(e, at) => Parse::Failed(e, at),
                Parse::Got(clock, p) => match if len >= 11 {
                    packet::read_uint(buf, p, 4)
                } else {
                    Parse::Got(0, p)
                } {
                    Parse::Failed(e, at) => Parse::Failed(e, at),
                    Parse::Got(micros, p) => Parse::Got(
                        BinaryView::DateTime {
                            year: date.0,
                            month: date.1,
                            day: date.2,
                            hour: clock.0,
                            minute: clock.1,
                            second: clock.2,
                            micros: micros as u32,
                        },
                        p,
                    ),
                },
            },
        },
    }
}

/// A sign, a number of days, and a clock time.
pub open spec fn read_duration(buf: Seq<u8>, pos: int) -> Parse<(bool, u32, (u8, u8, u8))> {
    match packet::read_uint(buf, pos, 1) {
        Parse::Failed(e, at) => Parse::Failed(e, at),
        Parse::Got(sign, p) => match packet::read_uint(buf, p, 4) {
            Parse::Failed(e, at) => Parse::Failed(e, at),
            Parse::Got(days, p) => match read_clock(buf, p) {
                Parse::Failed(e, at) => Parse::Failed(e, at),
                Parse::Got(clock, p) => Parse::Got((sign != 0, days as u32, clock), p),
            },
        },
    }
}

/// A packed duration: a length byte says which parts follow.
pub open spec fn read_time(buf: Seq<u8>, pos: int) -> Parse<BinaryView> {
    match packet::read_uint(buf, pos, 1) {
        Parse::Failed(e, at) => Parse::Failed(e, at),
        Parse::Got(len, p) => match if len >= 8 {
            read_duration(buf, p)
        } else {
            Parse::Got((false, 0, (0, 0, 0)), p)
        } {
            Parse::Failed(e, at) => Parse::Failed(e, at),
            Parse::Got(d, p) => match if len >= 12 {
                packet::read_uint(buf, p, 4)
            } else {
                Parse::Got(0, p)
            } {
                Parse::Failed(e, at) => Parse::Failed(e, at),
                Parse::Got(micros, p) => Parse::Got(
                    BinaryView::Time {
                        negative: d.0,
                        days: d.1,
                        hour: d.2.0,
                        minute: d.2.1,
                        second: d.2.2,
                        micros: micros as u32,
                    },
                    p,
                ),
            },
        },
    }
}

/// The columns that hold a date or a date and time.
pub open spec fn is_date_type(code: u8) -> bool {
    code == column_type::MYSQL_TYPE_DATE || code == column_type::MYSQL_TYPE_DATETIME || code
        == column_type::MYSQL_TYPE_TIMESTAMP
}

/// The width of an integer column, if the type is one.
pub open spec fn int_width(code: u8) -> Option<nat> {
    if code == column_type::MYSQL_TYPE_TINY {
        Some(1)
    } else if code == column_type::MYSQL_TYPE_SHORT || code == column_type::MYSQL_TYPE_YEAR {
        Some(2)
    } else if code == column_type::MYSQL_TYPE_LONG || code == column_type::MYSQL_TYPE_INT24 {
        Some(4)
    } else if code == column_type::MYSQL_TYPE_LONGLONG {
        Some(8)
    } else {
        None
    }
}

/// One parameter value of the given type.
pub open spec fn read_value(buf: Seq<u8>, pos: int, code: u8, unsigned: bool) -> Parse<BinaryView> {
    if int_width(code) is Some {
        read_int(buf, pos, int_width(code)->0, unsigned)
    } else if code == column_type::MYSQL_TYPE_FLOAT {
        match packet::read_uint(buf, pos, 4) {
            Parse::Failed(e, at) => Parse::Failed(e, at),
            Parse::Got(bits, p) => Parse::Got(BinaryView::F32(bits as u32), p),
        }
    } else if code == column_type::MYSQL_TYPE_DOUBLE {
        match packet::read_uint(buf, pos, 8) {
            Parse::Failed(e, at) => Parse::Failed(e, at),
            Parse::Got(bits, p) => Parse::Got(BinaryView::F64(bits as u64), p),
        }
    } else if is_date_type(code) {
        read_datetime(buf, pos)
    } else if code == column_type::MYSQL_TYPE_TIME {
        read_time(buf, pos)
    } else {
        match packet::read_lenenc_bytes(buf, pos) {
            Parse::Failed(e, at) => Parse::Failed(e, at),
            Parse::Got(bytes, p) => Parse::Got(BinaryView::Bytes(bytes), p),
        }
    }
}

/// The model of a result that holds a value.
pub open spec fn value_result(r: Result<BinaryValue, ProtocolError>) -> Result<
    BinaryView,
    ErrorView,
> {
    match r {
        Ok(v) => Ok(v@),
        Err(e) => Err(e@),
    }
}

/// Decodes a packed date and time.
pub fn decode_datetime(r: &mut PacketReader) -> (res: Result<BinaryValue, ProtocolError>)
    ensures
        final(r).buf() == old(r).buf(),
        PacketReader::left(
            read_datetime(old(r).buf(), old(r).pos()),
            value_result(res),
            *final(r),
        ),
{
    let len: u8 = r.u8()?;
    let mut year: u16 = 0;
    let mut month: u8 = 0;
    let mut day: u8 = 0;
    let mut hour: u8 = 0;
    let mut minute: u8 = 0;
    let mut second: u8 = 0;
    let mut micros: u32 = 0;
    if len >= 4 {
        year = r.u16()?;
        month = r.u8()?;
        day = r.u8()?;
    }
    if len >= 7 {
        hour = r.u8()?;
        minute = r.u8()?;
        second = r.u8()?;
    }
    if len >= 11 {
        micros = r.u32()?;
    }
    Ok(BinaryValue::DateTime { year, month, day, hour, minute, second, micros })
}

/// Decodes a packed duration.
pub fn decode_time(r: &mut PacketReader) -> (res: Result<BinaryValue, ProtocolError>)
    ensures
        final(r).buf() == old(r).buf(),
        PacketReader::left(read_time(old(r).buf(), old(r).pos()), value_result(res), *final(r)),
{
    let len: u8 = r.u8()?;
    let mut negative: bool = false;
    let mut days: u32 = 0;
    let mut hour: u8 = 0;
    let mut minute: u8 = 0;
    let mut second: u8 = 0;
    let mut micros: u32 = 0;
    if len >= 8 {
        let sign: u8 = r.u8()?;
        negative = sign != 0;
        days = r.u32()?;
        hour = r.u8()?;
        minute = r.u8()?;
        second = r.u8()?;
    }
    if len >= 12 {
        micros = r.u32()?;
    }
    Ok(BinaryValue::Time { negative, days, hour, minute, second, micros })
}

/// Decodes an integer field of `width` bytes.
fn decode_int(r: &mut PacketReader, width: usize, unsigned: bool) -> (res: Result<
    BinaryValue,
    ProtocolError,
>)
    requires
        width == 1 || width == 2 || width == 4 || width == 8,
    ensures
        final(r).buf() == old(r).buf(),
        PacketReader::left(
            read_int(old(r).buf(), old(r).pos(), width as nat, unsigned),
            value_result(res),
            *final(r),
        ),
{
    proof {
        reveal_with_fuel(packet::pow256, 9);
    }
    if width == 1 {
        let raw: u8 = r.u8()?;
        Ok(int_value(raw as u64, 1, unsigned))
    } else if width == 2 {
        let raw: u16 = r.u16()?;
        Ok(int_value(raw as u64, 2, unsigned))
    } else if width == 4 {
        let raw: u32 = r.u32()?;
        Ok(int_value(raw as u64, 4, unsigned))
    } else {
        let raw: u64 = r.u64()?;
        Ok(int_value(raw, 8, unsigned))
    }
}

/// Decodes one parameter value that is not NULL.
pub fn decode_value(r: &mut PacketReader, type_code: u8, unsigned: bool) -> (res: Result<
    BinaryValue,
    ProtocolError,
>)
    ensures
        final(r).buf() == old(r).buf(),
        PacketReader::left(
            read_value(old(r).buf(), old(r).pos(), type_code, unsigned),
            value_result(res),
            *final(r),
        ),
{
    if type_code == column_type::MYSQL_TYPE_TINY {
        decode_int(r, 1, unsigned)
    } else if type_code == column_type::MYSQL_TYPE_SHORT || type_code
        == column_type::MYSQL_TYPE_YEAR {
        decode_int(r, 2, unsigned)
    } else if type_code == column_type::MYSQL_TYPE_LONG || type_code
        == column_type::MYSQL_TYPE_INT24 {
        decode_int(r, 4, unsigned)
    } else if type_code == column_type::MYSQL_TYPE_LONGLONG {
        decode_int(r, 8, unsigned)
    } else if type_code == column_type::MYSQL_TYPE_FLOAT {
        let bits: u32 = r.u32()?;
        Ok(BinaryValue::F32(bits))
    } else if type_code == column_type::MYSQL_TYPE_DOUBLE {
        let bits: u64 = r.u64()?;
        Ok(BinaryValue::F64(bits))
    } else if type_code == column_type::MYSQL_TYPE_DATE || type_code
        == column_type::MYSQL_TYPE_DATETIME || type_code == column_type::MYSQL_TYPE_TIMESTAMP {
        decode_datetime(r)
    } else if type_code == column_type::MYSQL_TYPE_TIME {
        decode_time(r)
    } else {
        let bytes = r.lenenc_bytes()?;
        Ok(BinaryValue::Bytes(packet::copy_bytes(bytes)))
    }
}

// ---------------------------------------------------------------------------
// The parameters of an execution
// ---------------------------------------------------------------------------
/// An execute command. The parameters cannot be read before their number is
/// known, so they are kept as they came.
#[derive(Debug, Clone, PartialEq, Eq)]
pub struct StmtExecute {
    pub statement_id: u32,
    pub flags: u8,
    /// The NULL bitmap, the flag that types follow, the types, and the values.
    pub params_tail: Vec<u8>,
}

/// Bit `i` of a bitmap.
pub open spec fn bit_set(bitmap: Seq<u8>, i: int) -> bool {
    bitmap[i / 8] & (1u8 << ((i % 8) as u8)) != 0
}

/// The number of bytes that hold `n` bits.
pub open spec fn bitmap_len(n: int) -> int {
    (n + 7) / 8
}

/// So many parameter types: a type code and a flag whose high bit means unsigned.
pub open spec fn read_types(buf: Seq<u8>, pos: int, n: nat) -> Parse<Seq<(u8, bool)>>
    decreases n,
{
    if n == 0 {
        Parse::Got(seq![], pos)
    } else {
        match read_types(buf, pos, (n - 1) as nat) {
            Parse::Failed(e, at) => Parse::Failed(e, at),
            Parse::Got(types, p) => match packet::read_uint(buf, p, 1) {
                Parse::Failed(e, at) => Parse::Failed(e, at),
                Parse::Got(code, p) => match packet::read_uint(buf, p, 1) {
                    Parse::Failed(e, at) => Parse::Failed(e, at),
                    Parse::Got(flag, p) => Parse::Got(
                        types.push((code as u8, (flag as u8) & 0x80 != 0)),
                        p,
                    ),
                },
            },
        }
    }
}

/// The first `n` values: a parameter that the bitmap marks is NULL and takes no
/// bytes.
pub open spec fn read_values(
    buf: Seq<u8>,
    pos: int,
    types: Seq<(u8, bool)>,
    nulls: Seq<u8>,
    n: nat,
) -> Parse<Seq<BinaryView>>
    decreases n,
{
    if n == 0 {
        Parse::Got(seq![], pos)
    } else {
        let i = n - 1;
        match read_values(buf, pos, types, nulls, (n - 1) as nat) {
            Parse::Failed(e, at) => Parse::Failed(e, at),
            Parse::Got(values, p) => if bit_set(nulls, i) {
                Parse::Got(values.push(BinaryView::Null), p)
            } else {
                match read_value(buf, p, types[i].0, types[i].1) {
                    Parse::Failed(e, at) => Parse::Failed(e, at),
                    Parse::Got(v, p) => Parse::Got(values.push(v), p),
                }
            },
        }
    }
}

/// The message for an execution that does not send its parameter types.
pub open spec fn missing_types() -> ErrorView {
    ErrorView::Malformed("COM_STMT_EXECUTE without a parameter-type list is not supported"@)
}

/// The parameters of an execution with `n` of them.
pub open spec fn params_in(buf: Seq<u8>, n: nat) -> Result<Seq<BinaryView>, ErrorView> {
    if n == 0 {
        Ok(seq![])
    } else {
        match packet::read_bytes(buf, 0, bitmap_len(n as int)) {
            Parse::Failed(e, _) => Err(e),
            Parse::Got(nulls, p) => match packet::read_uint(buf, p, 1) {
                Parse::Failed(e, _) => Err(e),
                Parse::Got(bound, p) => if bound != 1 {
                    Err(missing_types())
                } else {
                    match read_types(buf, p, n) {
                        Parse::Failed(e, _) => Err(e),
                        Parse::Got(types, p) => match read_values(buf, p, types, nulls, n) {
                            Parse::Failed(e, _) => Err(e),
                            Parse::Got(values, _) => Ok(values),
                        },
                    }
                },
            },
        }
    }
}

/// A failure among the first values is the failure of them all.
proof fn values_failure_spreads(
    buf: Seq<u8>,
    pos: int,
    types: Seq<(u8, bool)>,
    nulls: Seq<u8>,
    i: nat,
    n: nat,
)
    requires
        i <= n,
        read_values(buf, pos, types, nulls, i) is Failed,
    ensures
        read_values(buf, pos, types, nulls, n) == read_values(buf, pos, types, nulls, i),
    decreases n,
{
    if i < n {
        values_failure_spreads(buf, pos, types, nulls, i, (n - 1) as nat);
    }
}

/// A failure among the first types is the failure of them all.
proof fn types_failure_spreads(buf: Seq<u8>, pos: int, i: nat, n: nat)
    requires
        i <= n,
        read_types(buf, pos, i) is Failed,
    ensures
        read_types(buf, pos, n) == read_types(buf, pos, i),
    decreases n,
{
    if i < n {
        types_failure_spreads(buf, pos, i, (n - 1) as nat);
    }
}

/// Reads a type code and its flag.
fn decode_type(r: &mut PacketReader) -> (res: Result<(u8, bool), ProtocolError>)
    ensures
        final(r).buf() == old(r).buf(),
        match packet::read_uint(old(r).buf(), old(r).pos(), 1) {
            Parse::Failed(e, at) => res is Err && res->Err_0@ == e && final(r).pos() == at,
            Parse::Got(code, p) => match packet::read_uint(old(r).buf(), p, 1) {
                Parse::Failed(e, at) => res is Err && res->Err_0@ == e && final(r).pos() == at,
                Parse::Got(flag, p) => res == Ok::<(u8, bool), ProtocolError>(
                    (code as u8, (flag as u8) & 0x80 != 0),
                ) && final(r).pos() == p,
            },
        },
{
    let code: u8 = r.u8()?;
    let flag: u8 = r.u8()?;
    Ok((code, flag & 0x80 != 0))
}

/// Reads the types of `n` parameters.
fn decode_types(r: &mut PacketReader, n: usize) -> (res: Result<Vec<(u8, bool)>, ProtocolError>)
    ensures
        final(r).buf() == old(r).buf(),
        match read_types(old(r).buf(), old(r).pos(), n as nat) {
            Parse::Got(types, p) => res is Ok && res->Ok_0@ == types && types.len() == n
                && final(r).pos() == p,
            Parse::Failed(e, _) => res is Err && res->Err_0@ == e,
        },
{
    let ghost buf = r.buf();
    let ghost start = r.pos();
    let mut types: Vec<(u8, bool)> = Vec::new();
    for i in 0..n
        invariant
            r.buf() == buf,
            buf == old(r).buf(),
            start == old(r).pos(),
            types@.len() == i,
            read_types(buf, start, i as nat) == Parse::Got(types@, r.pos()),
    {
        match decode_type(r) {
            Err(e) => {
                proof {
                    types_failure_spreads(buf, start, (i + 1) as nat, n as nat);
                }
                return Err(e);
            },
            Ok(t) => {
                types.push(t);
            },
        }
    }
    Ok(types)
}

/// Reads the values of the parameters of the given types.
fn decode_values(r: &mut PacketReader, types: &Vec<(u8, bool)>, nulls: &[u8]) -> (res: Result<
    Vec<BinaryValue>,
    ProtocolError,
>)
    requires
        nulls@.len() == bitmap_len(types@.len() as int),
    ensures
        final(r).buf() == old(r).buf(),
        match read_values(old(r).buf(), old(r).pos(), types@, nulls@, types@.len()) {
            Parse::Got(values, _) => res is Ok && res->Ok_0.deep_view() == values,
            Parse::Failed(e, _) => res is Err && res->Err_0@ == e,
        },
{
    let ghost buf = r.buf();
    let ghost start = r.pos();
    let mut out: Vec<BinaryValue> = Vec::new();
    assert(out.deep_view() =~= seq![]);
    for i in 0..types.len()
        invariant
            r.buf() == buf,
            buf == old(r).buf(),
            start == old(r).pos(),
            nulls@.len() == bitmap_len(types@.len() as int),
            read_values(buf, start, types@, nulls@, i as nat) == Parse::Got(
                out.deep_view(),
                r.pos(),
            ),
    {
        let ghost before = out.deep_view();
        if nulls[i / 8] & (1u8 << ((i % 8) as u8)) != 0 {
            out.push(BinaryValue::Null);
            assert(out.deep_view() =~= before.push(BinaryView::Null));
        } else {
            let (code, unsigned) = types[i];
            match decode_value(r, code, unsigned) {
                Err(e) => {
                    proof {
                        values_failure_spreads(
                            buf,
                            start,
                            types@,
                            nulls@,
                            (i + 1) as nat,
                            types@.len(),
                        );
                    }
                    return Err(e);
                },
                Ok(v) => {
                    out.push(v);
                    assert(out.deep_view() =~= before.push(v@));
                },
            }
        }
    }
    Ok(out)
}

impl StmtExecute {
    /// Decodes the bound parameters of a statement with `num_params` of them.
    pub fn parse_params(&self, num_params: usize) -> (res: Result<Vec<BinaryValue>, ProtocolError>)
        ensures
            match res {
                Ok(values) => params_in(self.params_tail@, num_params as nat) == Ok::<
                    Seq<BinaryView>,
                    ErrorView,
                >(values.deep_view()),
                Err(e) => params_in(self.params_tail@, num_params as nat) == Err::<
                    Seq<BinaryView>,
                    ErrorView,
                >(e@),
            },
    {
        if num_params == 0 {
            let none: Vec<BinaryValue> = Vec::new();
            assert(none.deep_view() =~= seq![]);
            return Ok(none);
        }
        let mut r = PacketReader::new(self.params_tail.as_slice());
        let map_len: usize = if num_params % 8 == 0 {
            num_params / 8
        } else {
            num_params / 8 + 1
        };
        let nulls = r.bytes(map_len)?;
        let bound: u8 = r.u8()?;
        if bound != 1 {
            return Err(
                ProtocolError::Malformed(
                    "COM_STMT_EXECUTE without a parameter-type list is not supported".to_string(),
                ),
            );
        }
        let types = decode_types(&mut r, num_params)?;
        decode_values(&mut r, &types, nulls)
    }
}

// ---------------------------------------------------------------------------
// Binary rows
// ---------------------------------------------------------------------------
/// A 64-bit integer in two's complement.
pub open spec fn twos(i: int) -> nat {
    if i < 0 {
        (i + 0x1_0000_0000_0000_0000) as nat
    } else {
        i as nat
    }
}

/// The integer that text denotes, or 0 if it denotes none.
pub open spec fn text_int(bytes: Seq<u8>) -> int {
    if utf8::valid_utf8(bytes) {
        match numeric::parsed_signed(text::trimmed(utf8::decode_utf8(bytes))) {
            Some(i) => i,
            None => 0,
        }
    } else {
        0
    }
}

/// The 64 bits of a value in an integer column: integers as they are, text as
/// the integer that it denotes, and zero for a date or a time.
pub open spec fn int_bits(v: BinaryView) -> nat {
    match v {
        BinaryView::I64(i) => twos(i as int),
        BinaryView::U64(u) => u as nat,
        BinaryView::Bytes(b) => twos(text_int(b)),
        _ => 0,
    }
}

/// The bytes of a value in a string column; none for a date or a time.
pub open spec fn string_bytes(v: BinaryView) -> Seq<u8> {
    match v {
        BinaryView::Bytes(b) => b,
        BinaryView::I64(i) => utf8::encode_utf8(numeric::signed_decimal(i as int)),
        BinaryView::U64(u) => utf8::encode_utf8(numeric::decimal(u as nat)),
        _ => seq![],
    }
}

/// A packed date and time, as short as the value allows; a value that is none is
/// written as the zero date.
pub open spec fn datetime_bytes(v: BinaryView) -> Seq<u8> {
    match v {
        BinaryView::DateTime { year, month, day, hour, minute, second, micros } => {
            let date = packet::le(year as nat, 2) + seq![month] + seq![day];
            let clock = seq![hour] + seq![minute] + seq![second];
            if micros != 0 {
                seq![11u8] + date + clock + packet::le(micros as nat, 4)
            } else if hour != 0 || minute != 0 || second != 0 {
                seq![7u8] + date + clock
            } else {
                seq![4u8] + date
            }
        },
        _ => seq![0u8],
    }
}

/// A packed duration; a value that is none is written as the zero duration.
pub open spec fn time_bytes(v: BinaryView) -> Seq<u8> {
    match v {
        BinaryView::Time { negative, days, hour, minute, second, micros } => {
            let sign: u8 = if negative {
                1
            } else {
                0
            };
            let parts = seq![sign] + packet::le(days as nat, 4) + seq![hour] + seq![minute]
                + seq![second];
            if micros != 0 {
                seq![12u8] + parts + packet::le(micros as nat, 4)
            } else {
                seq![8u8] + parts
            }
        },
        _ => seq![0u8],
    }
}

/// A value stands in the form that its column carries, as far as floating point
/// is concerned: a floating-point column holds the bit pattern of its own width,
/// and no other column holds one. Dates and times, which a floating-point column
/// carries as zero, may stand anywhere.
pub open spec fn float_form(code: u8, v: BinaryView) -> bool {
    match v {
        BinaryView::F32(_) => code == column_type::MYSQL_TYPE_FLOAT,
        BinaryView::F64(_) => code == column_type::MYSQL_TYPE_DOUBLE,
        BinaryView::I64(_) | BinaryView::U64(_) | BinaryView::Bytes(_) => code
            != column_type::MYSQL_TYPE_FLOAT && code != column_type::MYSQL_TYPE_DOUBLE,
        _ => true,
    }
}

/// Whether a value stands in the form that its column carries.
pub fn has_float_form(code: u8, value: &BinaryValue) -> (r: bool)
    ensures
        r == float_form(code, value@),
{
    match value {
        BinaryValue::F32(_) => code == column_type::MYSQL_TYPE_FLOAT,
        BinaryValue::F64(_) => code == column_type::MYSQL_TYPE_DOUBLE,
        BinaryValue::I64(_) | BinaryValue::U64(_) | BinaryValue::Bytes(_) => code
            != column_type::MYSQL_TYPE_FLOAT && code != column_type::MYSQL_TYPE_DOUBLE,
        _ => true,
    }
}

/// The bytes of a value that is not NULL, in a column of the given type.
pub open spec fn value_bytes(code: u8, v: BinaryView) -> Seq<u8> {
    if int_width(code) is Some {
        packet::le(int_bits(v), int_width(code)->0)
    } else if code == column_type::MYSQL_TYPE_FLOAT {
        packet::le(
            match v {
                BinaryView::F32(bits) => bits as nat,
                _ => 0,
            },
            4,
        )
    } else if code == column_type::MYSQL_TYPE_DOUBLE {
        packet::le(
            match v {
                BinaryView::F64(bits) => bits as nat,
                _ => 0,
            },
            8,
        )
    } else if is_date_type(code) {
        datetime_bytes(v)
    } else if code == column_type::MYSQL_TYPE_TIME {
        time_bytes(v)
    } else {
        packet::lenenc_string(string_bytes(v))
    }
}

/// The NULL bitmap of a row: bit `i + 2` is set for column `i` if that is NULL.
pub open spec fn null_bits(cells: Seq<(u8, BinaryView)>, len: nat) -> Seq<u8>
    decreases cells.len(),
{
    if cells.len() == 0 {
        packet::zero_bytes(len)
    } else {
        let bit = cells.len() - 1 + 2;
        let before = null_bits(cells.drop_last(), len);
        if cells.last().1 is Null {
            before.update(bit / 8, before[bit / 8] | (1u8 << ((bit % 8) as u8)))
        } else {
            before
        }
    }
}

/// The values of a row that are not NULL, one behind the other.
pub open spec fn row_values(cells: Seq<(u8, BinaryView)>) -> Seq<u8>
    decreases cells.len(),
{
    if cells.len() == 0 {
        seq![]
    } else if cells.last().1 is Null {
        row_values(cells.drop_last())
    } else {
        row_values(cells.drop_last()) + value_bytes(cells.last().0, cells.last().1)
    }
}

/// The length of a row's NULL bitmap.
pub open spec fn row_bitmap_len(columns: nat) -> nat {
    bitmap_len(columns as int + 2) as nat
}

/// A binary row: a zero byte, the NULL bitmap, and the values.
pub open spec fn binary_row(cells: Seq<(u8, BinaryView)>) -> Seq<u8> {
    seq![0u8] + null_bits(cells, row_bitmap_len(cells.len())) + row_values(cells)
}

/// The cells of a row.
pub open spec fn cell_views(cells: Seq<(u8, BinaryValue)>) -> Seq<(u8, BinaryView)> {
    Seq::new(cells.len(), |i: int| (cells[i].0, cells[i].1@))
}

/// The two's complement of an integer.
fn twos_complement(i: i64) -> (r: u64)
    ensures
        r == twos(i as int),
{
    if i < 0 {
        (i - i64::MIN) as u64 + 0x8000_0000_0000_0000
    } else {
        i as u64
    }
}

/// The 64 bits of a value in an integer column.
fn as_int_bits(value: &BinaryValue) -> (r: u64)
    ensures
        r == int_bits(value@),
{
    match value {
        BinaryValue::I64(i) => twos_complement(*i),
        BinaryValue::U64(u) => *u,
        BinaryValue::Bytes(b) => match text::decode_str(b.as_slice()) {
            Some(s) => {
                let chars = text::chars_of(s.as_str());
                match numeric::parse_signed(text::trim(&chars)) {
                    Some(i) => twos_complement(i),
                    None => 0,
                }
            },
            None => 0,
        },
        _ => 0,
    }
}

/// The bytes of a value in a string column.
fn as_bytes(value: &BinaryValue) -> (r: Vec<u8>)
    ensures
        r@ == string_bytes(value@),
{
    match value {
        BinaryValue::Bytes(b) => packet::copy_bytes(b.as_slice()),
        BinaryValue::I64(i) => {
            let mut digits: Vec<char> = Vec::new();
            numeric::push_signed(&mut digits, *i);
            assert(digits@ =~= numeric::signed_decimal(*i as int));
            let s = text::string_of(&digits);
            packet::copy_bytes(s.as_str().as_bytes())
        },
        BinaryValue::U64(u) => {
            let mut digits: Vec<char> = Vec::new();
            numeric::push_decimal(&mut digits, *u);
            assert(digits@ =~= numeric::decimal(*u as nat));
            let s = text::string_of(&digits);
            packet::copy_bytes(s.as_str().as_bytes())
        },
        _ => {
            let none: Vec<u8> = Vec::new();
            assert(none@ =~= seq![]);
            none
        },
    }
}

/// Writes a packed date and time.
fn encode_datetime(w: &mut PacketWriter, value: &BinaryValue)
    ensures
        final(w)@ == old(w)@ + datetime_bytes(value@),
{
    match value {
        BinaryValue::DateTime { year, month, day, hour, minute, second, micros } => {
            let has_time = *hour != 0 || *minute != 0 || *second != 0 || *micros != 0;
            let len: u8 = if *micros != 0 {
                11
            } else if has_time {
                7
            } else {
                4
            };
            w.u8(len);
            w.u16(*year);
            w.u8(*month);
            w.u8(*day);
            if len >= 7 {
                w.u8(*hour);
                w.u8(*minute);
                w.u8(*second);
            }
            if len >= 11 {
                w.u32(*micros);
            }
            assert(w@ =~= old(w)@ + datetime_bytes(value@));
        },
        _ => {
            w.u8(0);
        },
    }
}

/// Writes a packed duration.
fn encode_time(w: &mut PacketWriter, value: &BinaryValue)
    ensures
        final(w)@ == old(w)@ + time_bytes(value@),
{
    match value {
        BinaryValue::Time { negative, days, hour, minute, second, micros } => {
            let len: u8 = if *micros != 0 {
                12
            } else {
                8
            };
            w.u8(len);
            w.u8(
                if *negative {
                    1
                } else {
                    0
                },
            );
            w.u32(*days);
            w.u8(*hour);
            w.u8(*minute);
            w.u8(*second);
            if len >= 12 {
                w.u32(*micros);
            }
            assert(w@ =~= old(w)@ + time_bytes(value@));
        },
        _ => {
            w.u8(0);
        },
    }
}

/// Writes one value that is not NULL. Where the value does not have the column's
/// type, it is brought to it as well as can be.
fn encode_value(w: &mut PacketWriter, type_code: u8, value: &BinaryValue)
    requires
        float_form(type_code, value@),
    ensures
        final(w)@ == old(w)@ + value_bytes(type_code, value@),
{
    proof {
        let bits = int_bits(value@);
        packet::le_takes_low_bytes(bits, 1);
        packet::le_takes_low_bytes(bits, 2);
        packet::le_takes_low_bytes(bits, 4);
        reveal_with_fuel(packet::pow256, 5);
    }
    if type_code == column_type::MYSQL_TYPE_TINY {
        let low: u8 = (as_int_bits(value) % 0x100) as u8;
        proof {
            reveal_with_fuel(packet::le, 2);
            assert(packet::le(low as nat, 1) =~= seq![low]);
        }
        w.u8(low);
    } else if type_code == column_type::MYSQL_TYPE_SHORT || type_code
        == column_type::MYSQL_TYPE_YEAR {
        w.u16((as_int_bits(value) % 0x1_0000) as u16);
    } else if type_code == column_type::MYSQL_TYPE_LONG || type_code
        == column_type::MYSQL_TYPE_INT24 {
        w.u32((as_int_bits(value) % 0x1_0000_0000) as u32);
    } else if type_code == column_type::MYSQL_TYPE_LONGLONG {
        w.u64(as_int_bits(value));
    } else if type_code == column_type::MYSQL_TYPE_FLOAT {
        w.u32(
            match value {
                BinaryValue::F32(bits) => *bits,
                _ => 0,
            },
        );
    } else if type_code == column_type::MYSQL_TYPE_DOUBLE {
        w.u64(
            match value {
                BinaryValue::F64(bits) => *bits,
                _ => 0,
            },
        );
    } else if type_code == column_type::MYSQL_TYPE_DATE || type_code
        == column_type::MYSQL_TYPE_DATETIME || type_code == column_type::MYSQL_TYPE_TIMESTAMP {
        encode_datetime(w, value);
    } else if type_code == column_type::MYSQL_TYPE_TIME {
        encode_time(w, value);
    } else {
        let bytes = as_bytes(value);
        w.lenenc_bytes(&bytes);
    }
}

/// The NULL bitmap of a row.
fn encode_null_bits(cells: &[(u8, BinaryValue)]) -> (bitmap: Vec<u8>)
    ensures
        bitmap@ == null_bits(cell_views(cells@), row_bitmap_len(cells@.len())),
{
    let n: usize = cells.len();
    let len: usize = n / 8 + (n % 8 + 9) / 8;
    let mut bitmap: Vec<u8> = Vec::new();
    bitmap.resize(len, 0);
    let ghost views = cell_views(cells@);
    assert(bitmap@ =~= packet::zero_bytes(len as nat));
    assert(views.take(0) =~= seq![]);
    for i in 0..n
        invariant
            n == cells@.len(),
            views == cell_views(cells@),
            len == row_bitmap_len(n as nat),
            bitmap@.len() == len,
            bitmap@ == null_bits(views.take(i as int), len as nat),
    {
        assert(views.take(i + 1).drop_last() =~= views.take(i as int));
        if let BinaryValue::Null = cells[i].1 {
            let at: usize = i / 8 + (i % 8 + 2) / 8;
            let bit: u8 = ((i % 8 + 2) % 8) as u8;
            assert(at == (i + 2) / 8 && bit == (i + 2) % 8);
            let byte: u8 = bitmap[at] | (1u8 << bit);
            bitmap.set(at, byte);
        }
    }
    assert(views.take(n as int) =~= views);
    bitmap
}

/// One row of a binary result set. `cells` gives each column's type and value.
pub fn encode_binary_row(cells: &[(u8, BinaryValue)]) -> (r: Vec<u8>)
    requires
        forall|i: int| 0 <= i < cells@.len() ==> float_form((#[trigger] cells@[i]).0, cells@[i].1@),
    ensures
        r@ == binary_row(cell_views(cells@)),
{
    let ghost views = cell_views(cells@);
    let mut w = PacketWriter::with_capacity(16);
    w.u8(0x00);
    let bitmap = encode_null_bits(cells);
    w.bytes(&bitmap);
    let ghost head = w@;
    assert(views.take(0) =~= seq![]);
    for i in 0..cells.len()
        invariant
            forall|i: int|
                0 <= i < cells@.len() ==> float_form((#[trigger] cells@[i]).0, cells@[i].1@),
            views == cell_views(cells@),
            w@ == head + row_values(views.take(i as int)),
    {
        assert(views.take(i + 1).drop_last() =~= views.take(i as int));
        let (type_code, value) = &cells[i];
        if let BinaryValue::Null = value {
        } else {
            encode_value(&mut w, *type_code, value);
            assert(w@ =~= head + row_values(views.take(i + 1)));
        }
    }
    assert(views.take(cells@.len() as int) =~= views);
    assert(w@ =~= binary_row(views));
    w.into_bytes()
}

// ---------------------------------------------------------------------------
// Laws
// ---------------------------------------------------------------------------
/// A row's NULL bitmap marks exactly the NULL columns: bit `j` is set if and only
/// if column `j - 2` exists and is NULL.
pub proof fn null_bits_mark_nulls(cells: Seq<(u8, BinaryView)>, j: int)
    requires
        0 <= j < 8 * row_bitmap_len(cells.len()),
    ensures
        null_bits(cells, row_bitmap_len(cells.len())).len() == row_bitmap_len(cells.len()),
        bit_set(null_bits(cells, row_bitmap_len(cells.len())), j) == (2 <= j < cells.len() + 2
            && cells[j - 2].1 is Null),
{
    null_bits_mark_upto(cells, row_bitmap_len(cells.len()), j);
}

proof fn null_bits_mark_upto(cells: Seq<(u8, BinaryView)>, len: nat, j: int)
    requires
        0 <= j < 8 * len,
        cells.len() + 2 <= 8 * len,
    ensures
        null_bits(cells, len).len() == len,
        bit_set(null_bits(cells, len), j) == (2 <= j < cells.len() + 2 && cells[j - 2].1 is Null),
    decreases cells.len(),
{
    let b = (j % 8) as u8;
    if cells.len() == 0 {
        assert(0u8 & (1u8 << b) == 0) by (bit_vector);
    } else {
        let bit = cells.len() - 1 + 2;
        let a = (bit % 8) as u8;
        null_bits_mark_upto(cells.drop_last(), len, j);
        let before = null_bits(cells.drop_last(), len);
        if cells.last().1 is Null && bit / 8 == j / 8 {
            let x = before[bit / 8];
            assert(a < 8 && b < 8);
            if a == b {
                assert((x | (1u8 << a)) & (1u8 << b) != 0) by (bit_vector)
                    requires
                        a == b,
                        b < 8,
                ;
                assert(bit == j);
            } else {
                assert(((x | (1u8 << a)) & (1u8 << b) != 0) == (x & (1u8 << b) != 0)) by (
                    bit_vector)
                    requires
                        a != b,
                        a < 8,
                        b < 8,
                ;
            }
        }
    }
}

/// A date and time of any precision is read back from a row, wherever it stands.
pub proof fn datetime_roundtrips(buf: Seq<u8>, pos: int, v: BinaryView)
    requires
        v is DateTime,
        packet::stands_at(buf, pos, datetime_bytes(v)),
    ensures
        read_datetime(buf, pos) == Parse::Got(v, pos + datetime_bytes(v).len()),
{
    let b = datetime_bytes(v);
    let here = buf.subrange(pos, pos + b.len());
    packet::le_reads_back(v->DateTime_year as nat, 2);
    packet::le_reads_back(v->DateTime_micros as nat, 4);
    reveal_with_fuel(packet::pow256, 5);
    assert(buf.subrange(pos, pos + 1) =~= seq![b[0]]);
    packet::le_value_unfolds(seq![b[0]]);
    assert(buf.subrange(pos + 1, pos + 3) =~= packet::le(v->DateTime_year as nat, 2)) by {
        assert(here.subrange(1, 3) =~= b.subrange(1, 3));
        assert(b.subrange(1, 3) =~= packet::le(v->DateTime_year as nat, 2));
        assert(buf.subrange(pos + 1, pos + 3) =~= here.subrange(1, 3));
    }
    byte_at(buf, pos, b, 3);
    byte_at(buf, pos, b, 4);
    if b[0] >= 7 {
        byte_at(buf, pos, b, 5);
        byte_at(buf, pos, b, 6);
        byte_at(buf, pos, b, 7);
    }
    if b[0] == 11 {
        assert(buf.subrange(pos + 8, pos + 12) =~= here.subrange(8, 12));
        assert(here.subrange(8, 12) =~= packet::le(v->DateTime_micros as nat, 4));
    }
}

/// A duration of any precision is read back from a row, wherever it stands.
pub proof fn time_roundtrips(buf: Seq<u8>, pos: int, v: BinaryView)
    requires
        v is Time,
        packet::stands_at(buf, pos, time_bytes(v)),
    ensures
        read_time(buf, pos) == Parse::Got(v, pos + time_bytes(v).len()),
{
    let b = time_bytes(v);
    let here = buf.subrange(pos, pos + b.len());
    packet::le_reads_back(v->Time_days as nat, 4);
    packet::le_reads_back(v->Time_micros as nat, 4);
    reveal_with_fuel(packet::pow256, 5);
    byte_at(buf, pos, b, 0);
    byte_at(buf, pos, b, 1);
    assert(buf.subrange(pos + 2, pos + 6) =~= here.subrange(2, 6));
    assert(here.subrange(2, 6) =~= packet::le(v->Time_days as nat, 4));
    byte_at(buf, pos, b, 6);
    byte_at(buf, pos, b, 7);
    byte_at(buf, pos, b, 8);
    if b[0] == 12 {
        assert(buf.subrange(pos + 9, pos + 13) =~= here.subrange(9, 13));
        assert(here.subrange(9, 13) =~= packet::le(v->Time_micros as nat, 4));
    }
}

/// Byte `i` of what stands at `pos`, read as a one-byte integer.
proof fn byte_at(buf: Seq<u8>, pos: int, b: Seq<u8>, i: int)
    requires
        packet::stands_at(buf, pos, b),
        0 <= i < b.len(),
    ensures
        packet::read_uint(buf, pos + i, 1) == Parse::Got(b[i] as nat, pos + i + 1),
{
    let here = buf.subrange(pos, pos + b.len());
    assert(here[i] == b[i]);
    assert(buf.subrange(pos + i, pos + i + 1) =~= seq![b[i]]);
    packet::le_value_unfolds(seq![b[i]]);
}

/// A signed integer that fits its column is read back from a row, with its sign.
pub proof fn signed_int_roundtrips(buf: Seq<u8>, pos: int, code: u8, i: i64)
    requires
        int_width(code) is Some,
        -(packet::pow256(int_width(code)->0) as int) <= 2 * i < packet::pow256(int_width(code)->0),
        packet::stands_at(buf, pos, value_bytes(code, BinaryView::I64(i))),
    ensures
        read_value(buf, pos, code, false) == Parse::Got(
            BinaryView::I64(i),
            pos + int_width(code)->0,
        ),
{
    let w = int_width(code)->0;
    let bits = twos(i as int);
    packet::pow256_values();
    packet::le_takes_low_bytes(bits, w);
    let low = bits % packet::pow256(w);
    packet::le_reads_back(low, w);
    let p = packet::pow256(w) as int;
    // The bits are `q` times the range of the column, and the low part.
    let q: int = if i >= 0 {
        0
    } else if w == 1 {
        0xff_ffff_ffff_ffff
    } else if w == 2 {
        0xffff_ffff_ffff
    } else if w == 4 {
        0xffff_ffff
    } else {
        0
    };
    let r: int = if i >= 0 {
        i as int
    } else {
        i + p
    };
    assert(bits == q * p + r) by {
        if i < 0 {
            if w == 1 {
                assert(p == 0x100);
                assert(q * p == 0xff_ffff_ffff_ffff * 0x100);
            } else if w == 2 {
                assert(p == 0x1_0000);
                assert(q * p == 0xffff_ffff_ffff * 0x1_0000);
            } else if w == 4 {
                assert(p == 0x1_0000_0000);
                assert(q * p == 0xffff_ffff * 0x1_0000_0000);
            } else {
                assert(w == 8);
                assert(p == 0x1_0000_0000_0000_0000);
            }
        }
    }
    vstd::arithmetic::div_mod::lemma_fundamental_div_mod_converse(bits as int, p, q, r);
    assert(low == r);
}

/// Any unsigned 64-bit integer is read back from a row, those beyond `i64` too.
pub proof fn unsigned_int_roundtrips(buf: Seq<u8>, pos: int, u: u64)
    requires
        packet::stands_at(
            buf,
            pos,
            value_bytes(column_type::MYSQL_TYPE_LONGLONG, BinaryView::U64(u)),
        ),
    ensures
        read_value(buf, pos, column_type::MYSQL_TYPE_LONGLONG, true) == Parse::Got(
            if u > i64::MAX {
                BinaryView::U64(u)
            } else {
                BinaryView::I64(u as i64)
            },
            pos + 8,
        ),
{
    reveal_with_fuel(packet::pow256, 9);
    packet::le_reads_back(u as nat, 8);
}

/// A `DOUBLE` is read back as it was written, and the reader is left eight bytes on.
pub proof fn double_roundtrips(buf: Seq<u8>, pos: int, bits: u64, unsigned: bool)
    requires
        packet::stands_at(buf, pos, value_bytes(0x05, BinaryView::F64(bits))),
    ensures
        read_value(buf, pos, 0x05, unsigned) == Parse::Got(BinaryView::F64(bits), pos + 8),
{
    packet::pow256_values();
    packet::le_reads_back(bits as nat, 8);
}

/// A `FLOAT` is read back as it was written, and the reader is left four bytes on.
pub proof fn float_roundtrips(buf: Seq<u8>, pos: int, bits: u32, unsigned: bool)
    requires
        packet::stands_at(buf, pos, value_bytes(0x04, BinaryView::F32(bits))),
    ensures
        read_value(buf, pos, 0x04, unsigned) == Parse::Got(BinaryView::F32(bits), pos + 4),
{
    packet::pow256_values();
    packet::le_reads_back(bits as nat, 4);
}

/// The number of bytes of an integer column: one for `TINY`, two for `SHORT` and
/// `YEAR`, four for `LONG` and `INT24`, eight for `LONGLONG`; no other column is an
/// integer column.
pub proof fn integer_columns_have_widths(code: u8)
    ensures
        code == 0x01 <==> int_width(code) == Some(1nat),
        code == 0x02 || code == 0x0d <==> int_width(code) == Some(2nat),
        code == 0x03 || code == 0x09 <==> int_width(code) == Some(4nat),
        code == 0x08 <==> int_width(code) == Some(8nat),
        int_width(code) is Some <==> (code == 0x01 || code == 0x02 || code == 0x0d || code == 0x03
            || code == 0x09 || code == 0x08),
{
}

/// A value that a column of the given type can hold as it is.
#[verifier::opaque]
pub open spec fn fits(code: u8, unsigned: bool, v: BinaryView) -> bool {
    match v {
        BinaryView::Null => true,
        BinaryView::I64(i) => if code == 0x01 {
            if unsigned {
                0 <= i <= 0xff
            } else {
                -0x80 <= i <= 0x7f
            }
        } else if code == 0x02 || code == 0x0d {
            if unsigned {
                0 <= i <= 0xffff
            } else {
                -0x8000 <= i <= 0x7fff
            }
        } else if code == 0x03 || code == 0x09 {
            if unsigned {
                0 <= i <= 0xffff_ffff
            } else {
                -0x8000_0000 <= i <= 0x7fff_ffff
            }
        } else {
            code == 0x08 && (unsigned ==> 0 <= i)
        },
        BinaryView::U64(u) => code == 0x08 && unsigned && u > 0x7fff_ffff_ffff_ffff,
        BinaryView::F32(_) => code == 0x04,
        BinaryView::F64(_) => code == 0x05,
        BinaryView::Bytes(b) => b.len() <= usize::MAX && code != 0x01 && code != 0x02 && code
            != 0x03 && code != 0x04 && code != 0x05 && code != 0x07 && code != 0x08 && code != 0x09
            && code != 0x0a && code != 0x0b && code != 0x0c && code != 0x0d,
        BinaryView::DateTime { .. } => code == 0x07 || code == 0x0a || code == 0x0c,
        BinaryView::Time { .. } => code == 0x0b,
    }
}

/// A value that its column can hold is read back from the bytes that were written
/// for it, and the reader is left just behind them.
pub proof fn value_roundtrips(buf: Seq<u8>, pos: int, code: u8, unsigned: bool, v: BinaryView)
    requires
        fits(code, unsigned, v),
        v !is Null,
        packet::stands_at(buf, pos, value_bytes(code, v)),
    ensures
        read_value(buf, pos, code, unsigned) == Parse::Got(v, pos + value_bytes(code, v).len()),
{
    reveal(fits);
    packet::pow256_values();
    match v {
        BinaryView::I64(i) => {
            let w = int_width(code)->0;
            if unsigned {
                packet::le_reads_back(i as nat, w);
            } else {
                signed_int_roundtrips(buf, pos, code, i);
                packet::le_reads_back(int_bits(v), w);
            }
        },
        BinaryView::U64(u) => {
            packet::le_reads_back(u as nat, 8);
        },
        BinaryView::F32(bits) => {
            float_roundtrips(buf, pos, bits, unsigned);
            packet::le_reads_back(bits as nat, 4);
        },
        BinaryView::F64(bits) => {
            double_roundtrips(buf, pos, bits, unsigned);
            packet::le_reads_back(bits as nat, 8);
        },
        BinaryView::Bytes(b) => {
            packet::lenenc_string_roundtrips(buf, pos, b);
        },
        BinaryView::DateTime { .. } => {
            datetime_roundtrips(buf, pos, v);
        },
        BinaryView::Time { .. } => {
            time_roundtrips(buf, pos, v);
        },
        BinaryView::Null => {},
    }
}

/// Bit `i` of a bitmap is bit `i % 8` of byte `i / 8`, counted from the low end.
pub proof fn bits_count_from_the_low_end(bitmap: Seq<u8>, i: int)
    requires
        0 <= i,
    ensures
        ({
            let b = bitmap[i / 8];
            &&& i % 8 == 0 ==> bit_set(bitmap, i) == (b % 2 == 1)
            &&& i % 8 == 1 ==> bit_set(bitmap, i) == (b / 2 % 2 == 1)
            &&& i % 8 == 2 ==> bit_set(bitmap, i) == (b / 4 % 2 == 1)
            &&& i % 8 == 3 ==> bit_set(bitmap, i) == (b / 8 % 2 == 1)
            &&& i % 8 == 4 ==> bit_set(bitmap, i) == (b / 16 % 2 == 1)
            &&& i % 8 == 5 ==> bit_set(bitmap, i) == (b / 32 % 2 == 1)
            &&& i % 8 == 6 ==> bit_set(bitmap, i) == (b / 64 % 2 == 1)
            &&& i % 8 == 7 ==> bit_set(bitmap, i) == (b / 128 % 2 == 1)
        }),
{
    let b = bitmap[i / 8];
    assert((b & (1u8 << 0u8) != 0) == (b % 2 == 1) && (b & (1u8 << 1u8) != 0) == (b / 2 % 2 == 1)
        && (b & (1u8 << 2u8) != 0) == (b / 4 % 2 == 1) && (b & (1u8 << 3u8) != 0) == (b / 8 % 2
        == 1) && (b & (1u8 << 4u8) != 0) == (b / 16 % 2 == 1) && (b & (1u8 << 5u8) != 0) == (b / 32
        % 2 == 1) && (b & (1u8 << 6u8) != 0) == (b / 64 % 2 == 1) && (b & (1u8 << 7u8) != 0) == (b
        / 128 % 2 == 1)) by (bit_vector);
}

/// Parameter types stand behind each other, two bytes for each: the type's code, and
/// a flag byte of at least `0x80` for an unsigned one.
pub proof fn types_take_two_bytes(buf: Seq<u8>, pos: int, n: nat)
    requires
        0 <= pos,
        pos + 2 * n <= buf.len(),
    ensures
        read_types(buf, pos, n) matches Parse::Got(types, next) && next == pos + 2 * n
            && types.len() == n && forall|i: int|
            0 <= i < n ==> #[trigger] types[i] == (buf[pos + 2 * i], buf[pos + 2 * i + 1] >= 0x80),
    decreases n,
{
    if n > 0 {
        types_take_two_bytes(buf, pos, (n - 1) as nat);
        let p = pos + 2 * (n - 1);
        assert(buf.subrange(p, p + 1) =~= seq![buf[p]]);
        assert(buf.subrange(p + 1, p + 2) =~= seq![buf[p + 1]]);
        packet::le_value_unfolds(seq![buf[p]]);
        packet::le_value_unfolds(seq![buf[p + 1]]);
        let flag = buf[p + 1];
        assert((flag & 0x80 != 0) == (flag >= 0x80)) by (bit_vector);
    }
}

/// What a row or an execution carries grows by the bytes of each further value, and
/// by none for NULL.
pub proof fn null_takes_no_bytes(cells: Seq<(u8, BinaryView)>, code: u8, v: BinaryView)
    ensures
        row_values(Seq::<(u8, BinaryView)>::empty()).len() == 0,
        v is Null ==> row_values(cells.push((code, v))) == row_values(cells),
        v !is Null ==> row_values(cells.push((code, v))) == row_values(cells) + value_bytes(
            code,
            v,
        ),
{
    assert(cells.push((code, v)).drop_last() =~= cells);
}

#[verifier::spinoff_prover]
#[verifier::rlimit(60)]
proof fn values_read_back(
    buf: Seq<u8>,
    pos: int,
    cells: Seq<(u8, BinaryView)>,
    types: Seq<(u8, bool)>,
    nulls: Seq<u8>,
)
    requires
        cells.len() <= types.len(),
        packet::stands_at(buf, pos, row_values(cells)),
        forall|i: int|
            0 <= i < cells.len() ==> (#[trigger] cells[i]).0 == types[i].0 && fits(
                cells[i].0,
                types[i].1,
                cells[i].1,
            ) && (bit_set(nulls, i) <==> cells[i].1 is Null),
    ensures
        read_values(buf, pos, types, nulls, cells.len()) == Parse::Got(
            Seq::new(cells.len(), |i: int| cells[i].1),
            pos + row_values(cells).len(),
        ),
    decreases cells.len(),
{
    let values = Seq::new(cells.len(), |i: int| cells[i].1);
    if cells.len() > 0 {
        let rest = cells.drop_last();
        let front = row_values(rest);
        let all = row_values(cells);
        let here = buf.subrange(pos, pos + all.len());
        assert forall|i: int| 0 <= i < rest.len() implies (#[trigger] rest[i]).0 == types[i].0
            && fits(rest[i].0, types[i].1, rest[i].1) && (bit_set(nulls, i)
            <==> rest[i].1 is Null) by {
            assert(rest[i] == cells[i]);
        }
        assert(buf.subrange(pos, pos + front.len()) =~= front) by {
            assert(here.take(front.len() as int) =~= front);
            assert(buf.subrange(pos, pos + front.len()) =~= here.take(front.len() as int));
        }
        values_read_back(buf, pos, rest, types, nulls);
        let n = cells.len() - 1;
        assert(cells[n] == cells.last());
        assert(Seq::new(rest.len(), |i: int| rest[i].1).push(cells.last().1) =~= values);
        if cells.last().1 !is Null {
            let b = value_bytes(cells.last().0, cells.last().1);
            let p = pos + front.len();
            assert(buf.subrange(p, p + b.len()) =~= b) by {
                assert(here.skip(front.len() as int) =~= b);
                assert(buf.subrange(p, p + b.len()) =~= here.skip(front.len() as int));
            }
            value_roundtrips(buf, p, cells.last().0, types[n].1, cells.last().1);
        }
    } else {
        assert(values =~= seq![]);
    }
}

/// What a client binds is what is read: an execution holds a bit for each parameter,
/// set if and only if that is NULL, a one, a type and a flag for each parameter, and
/// the values that are not NULL one behind the other.
pub proof fn bound_parameters_are_read(
    cells: Seq<(u8, BinaryView)>,
    nulls: Seq<u8>,
    typed: Seq<u8>,
)
    requires
        cells.len() > 0,
        nulls.len() == (cells.len() + 7) / 8,
        typed.len() == 2 * cells.len(),
        forall|i: int|
            0 <= i < cells.len() ==> {
                &&& (#[trigger] cells[i]).0 == typed[2 * i]
                &&& fits(cells[i].0, typed[2 * i + 1] >= 0x80, cells[i].1)
                &&& bit_set(nulls, i) <==> cells[i].1 is Null
            },
    ensures
        params_in(nulls + seq![0x01u8] + typed + row_values(cells), cells.len()) == Ok::<
            Seq<BinaryView>,
            ErrorView,
        >(Seq::new(cells.len(), |i: int| cells[i].1)),
{
    let values = row_values(cells);
    let buf = nulls + seq![0x01u8] + typed + values;
    let m = nulls.len() as int;
    assert(buf.subrange(0, m) =~= nulls);
    assert(buf.subrange(m, m + 1) =~= seq![0x01u8]);
    packet::le_value_unfolds(seq![0x01u8]);
    types_take_two_bytes(buf, m + 1, cells.len());
    let types = read_types(buf, m + 1, cells.len())->Got_0;
    let p = m + 1 + 2 * cells.len();
    assert(buf.subrange(p, p + values.len()) =~= values);
    assert forall|i: int| 0 <= i < cells.len() implies (#[trigger] cells[i]).0 == types[i].0
        && fits(cells[i].0, types[i].1, cells[i].1) && (bit_set(nulls, i)
        <==> cells[i].1 is Null) by {
        assert(buf[m + 1 + 2 * i] == typed[2 * i]);
        assert(buf[m + 1 + 2 * i + 1] == typed[2 * i + 1]);
    }
    values_read_back(buf, p, cells, types, nulls);
}

/// An execution that sends no types is refused, and one without parameters needs no
/// bytes.
pub proof fn types_must_be_sent(buf: Seq<u8>, n: nat)
    requires
        (n + 7) / 8 < buf.len(),
    ensures
        params_in(buf, 0) == Ok::<Seq<BinaryView>, ErrorView>(seq![]),
        n > 0 && buf[(n as int + 7) / 8] != 1 ==> params_in(buf, n) == Err::<Seq<BinaryView>, ErrorView>(
            ErrorView::Malformed(
                "COM_STMT_EXECUTE without a parameter-type list is not supported"@,
            ),
        ),
{
    let m = (n as int + 7) / 8;
    assert(buf.subrange(m, m + 1) =~= seq![buf[m]]);
    packet::le_value_unfolds(seq![buf[m]]);
}

/// The bytes of a packed date and time: their number, the year with its low byte
/// first, the month, the day, the clock time, and the microseconds with the low byte
/// first. What is zero at the end is left out.
pub proof fn datetime_layout(v: BinaryView)
    requires
        v is DateTime,
    ensures
        ({
            let b = datetime_bytes(v);
            &&& b.len() == 1 + b[0]
            &&& b[0] == 4 || b[0] == 7 || b[0] == 11
            &&& b[0] == 11 <==> v->DateTime_micros != 0
            &&& b[0] == 4 <==> v->DateTime_micros == 0 && v->DateTime_hour == 0
                && v->DateTime_minute == 0 && v->DateTime_second == 0
            &&& b[1] + 256 * b[2] == v->DateTime_year
            &&& b[3] == v->DateTime_month
            &&& b[4] == v->DateTime_day
            &&& b[0] >= 7 ==> b[5] == v->DateTime_hour && b[6] == v->DateTime_minute && b[7]
                == v->DateTime_second
            &&& b[0] == 11 ==> b[8] + 0x100 * b[9] + 0x1_0000 * b[10] + 0x100_0000 * b[11]
                == v->DateTime_micros
        }),
{
    let b = datetime_bytes(v);
    let y = packet::le(v->DateTime_year as nat, 2);
    let m = packet::le(v->DateTime_micros as nat, 4);
    packet::pow256_values();
    packet::le_reads_back(v->DateTime_year as nat, 2);
    packet::le_reads_back(v->DateTime_micros as nat, 4);
    packet::le_value_unfolds(y);
    packet::le_value_unfolds(m);
}

/// The bytes of a packed duration: their number, one for a negative duration and zero
/// otherwise, the days with the low byte first, the clock time, and the microseconds
/// with the low byte first, which are left out where they are zero.
pub proof fn time_layout(v: BinaryView)
    requires
        v is Time,
    ensures
        ({
            let b = time_bytes(v);
            &&& b.len() == 1 + b[0]
            &&& b[0] == 8 || b[0] == 12
            &&& b[0] == 12 <==> v->Time_micros != 0
            &&& b[1] == 0 || b[1] == 1
            &&& b[1] == 1 <==> v->Time_negative
            &&& b[2] + 0x100 * b[3] + 0x1_0000 * b[4] + 0x100_0000 * b[5] == v->Time_days
            &&& b[6] == v->Time_hour && b[7] == v->Time_minute && b[8] == v->Time_second
            &&& b[0] == 12 ==> b[9] + 0x100 * b[10] + 0x1_0000 * b[11] + 0x100_0000 * b[12]
                == v->Time_micros
        }),
{
    let d = packet::le(v->Time_days as nat, 4);
    let m = packet::le(v->Time_micros as nat, 4);
    packet::pow256_values();
    packet::le_reads_back(v->Time_days as nat, 4);
    packet::le_reads_back(v->Time_micros as nat, 4);
    packet::le_value_unfolds(d);
    packet::le_value_unfolds(m);
}

/// The zero date and the zero duration are one zero byte, and are read back as zeros.
pub proof fn zero_dates_are_short(buf: Seq<u8>, pos: int)
    requires
        0 <= pos < buf.len(),
        buf[pos] == 0,
    ensures
        read_datetime(buf, pos) == Parse::Got(
            BinaryView::DateTime {
                year: 0,
                month: 0,
                day: 0,
                hour: 0,
                minute: 0,
                second: 0,
                micros: 0,
            },
            pos + 1,
        ),
        read_time(buf, pos) == Parse::Got(
            BinaryView::Time { negative: false, days: 0, hour: 0, minute: 0, second: 0, micros: 0 },
            pos + 1,
        ),
{
    assert(buf.subrange(pos, pos + 1) =~= seq![buf[pos]]);
    packet::le_value_unfolds(seq![buf[pos]]);
}

/// A row starts with a zero byte; its bitmap has a bit for each column and two more;
/// the values follow.
pub proof fn row_layout(cells: Seq<(u8, BinaryView)>)
    ensures
        ({
            let row = binary_row(cells);
            let m = (cells.len() as int + 9) / 8;
            &&& row.len() == 1 + m + row_values(cells).len()
            &&& row[0] == 0
            &&& row.skip(1 + m) == row_values(cells)
            &&& forall|j: int|
                0 <= j < 8 * m ==> #[trigger] bit_set(row.subrange(1, 1 + m), j) == (2 <= j
                    < cells.len() + 2 && cells[j - 2].1 is Null)
        }),
{
    let row = binary_row(cells);
    let m = row_bitmap_len(cells.len());
    let map = null_bits(cells, m);
    null_bits_mark_nulls(cells, 0);
    assert(row.subrange(1, 1 + m as int) =~= map);
    assert(row.skip(1 + m as int) =~= row_values(cells));
    assert forall|j: int| 0 <= j < 8 * m implies #[trigger] bit_set(
        row.subrange(1, 1 + m as int),
        j,
    ) == (2 <= j < cells.len() + 2 && cells[j - 2].1 is Null) by {
        null_bits_mark_nulls(cells, j);
    }
}

/// The fields of a prepare reply stand at fixed places, each with its low byte first.
pub proof fn prepare_ok_layout(
    statement_id: u32,
    num_columns: u16,
    num_params: u16,
    warning_count: u16,
)
    ensures
        ({
            let b = prepare_ok_payload(statement_id, num_columns, num_params, warning_count);
            &&& b.len() == 12
            &&& b[0] == 0
            &&& b[1] + 0x100 * b[2] + 0x1_0000 * b[3] + 0x100_0000 * b[4] == statement_id
            &&& b[5] + 0x100 * b[6] == num_columns
            &&& b[7] + 0x100 * b[8] == num_params
            &&& b[9] == 0
            &&& b[10] + 0x100 * b[11] == warning_count
        }),
{
    let i = packet::le(statement_id as nat, 4);
    let c = packet::le(num_columns as nat, 2);
    let p = packet::le(num_params as nat, 2);
    let w = packet::le(warning_count as nat, 2);
    packet::pow256_values();
    packet::le_reads_back(statement_id as nat, 4);
    packet::le_reads_back(num_columns as nat, 2);
    packet::le_reads_back(num_params as nat, 2);
    packet::le_reads_back(warning_count as nat, 2);
    packet::le_value_unfolds(i);
    packet::le_value_unfolds(c);
    packet::le_value_unfolds(p);
    packet::le_value_unfolds(w);
}

/// An integer column of eight bytes holds an integer as its two's complement: the
/// bytes denote the integer itself, or it and `2` to the power of 64.
pub proof fn integers_wrap(i: i64, u: u64)
    ensures
        int_bits(BinaryView::I64(i)) == i || int_bits(BinaryView::I64(i)) == i
            + 0x1_0000_0000_0000_0000,
        int_bits(BinaryView::I64(i)) < 0x1_0000_0000_0000_0000,
        int_bits(BinaryView::U64(u)) == u,
{
}

/// An integer that stands in a string column is written in decimal, and text that
/// stands in an integer column is read as decimal: the two undo each other.
pub proof fn decimal_text_roundtrips(i: i64)
    ensures
        int_bits(BinaryView::Bytes(string_bytes(BinaryView::I64(i)))) == int_bits(
            BinaryView::I64(i),
        ),
{
    let digits = numeric::signed_decimal(i as int);
    utf8::encode_utf8_decode_utf8(digits);
    utf8::encode_utf8_valid_utf8(digits);
    numeric::signed_decimal_reads_back(i);
    let size: int = if i < 0 {
        -(i as int)
    } else {
        i as int
    };
    numeric::decimal_reads_back(size as nat);
    let d = numeric::decimal(size as nat);
    assert(numeric::is_digit_char(d[0]) && numeric::is_digit_char(d[d.len() - 1]));
    assert(digits.last() == d[d.len() - 1]);
    assert(text::trimmed(digits) == digits);
}

/// In an integer column, text that is no number is sent as zero, and so is a value
/// that is neither a number nor text.
pub proof fn other_text_is_zero(b: Seq<u8>, k: int)
    ensures
        !utf8::valid_utf8(b) ==> int_bits(BinaryView::Bytes(b)) == 0,
        utf8::valid_utf8(b) ==> ({
            let s = text::trimmed(utf8::decode_utf8(b));
            s.len() == 0 || (1 <= k < s.len() && !('0' <= s[k] <= '9')) || (s.len() == 1 && !('0'
                <= s[0] <= '9')) ==> int_bits(BinaryView::Bytes(b)) == 0
        }),
        int_bits(BinaryView::Null) == 0,
{
    if utf8::valid_utf8(b) {
        let s = text::trimmed(utf8::decode_utf8(b));
        if s.len() == 0 || (1 <= k < s.len() && !('0' <= s[k] <= '9')) || (s.len() == 1 && !('0'
            <= s[0] <= '9')) {
            numeric::other_text_is_no_number(s, 0, k);
        }
    }
}

/// A number of four bytes stands in columns of type 4 only, one of eight bytes in
/// columns of type 5 only, and integers and text in all others.
pub proof fn floats_have_their_columns(code: u8, single: u32, double: u64, i: i64, s: Seq<u8>)
    ensures
        float_form(code, BinaryView::F32(single)) <==> code == 4,
        float_form(code, BinaryView::F64(double)) <==> code == 5,
        float_form(code, BinaryView::I64(i)) <==> code != 4 && code != 5,
        float_form(code, BinaryView::U64(double)) <==> code != 4 && code != 5,
        float_form(code, BinaryView::Bytes(s)) <==> code != 4 && code != 5,
        float_form(code, BinaryView::Null),
{
}

} // verus!
