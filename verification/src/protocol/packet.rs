//! Readers and writers for the primitive encodings: little-endian integers,
//! length-encoded integers, and the framings of byte strings.

use vstd::prelude::*;

use crate::protocol::error::{ErrorView, ProtocolError};

verus! {

// ---------------------------------------------------------------------------
// Little-endian numbers
// ---------------------------------------------------------------------------
/// The low `n` bytes of `v`, least significant first.
pub open spec fn le(v: nat, n: nat) -> Seq<u8>
    decreases n,
{
    if n == 0 {
        seq![]
    } else {
        seq![(v % 256) as u8] + le(v / 256, (n - 1) as nat)
    }
}

/// The number that `s` denotes, least significant byte first.
pub open spec fn le_value(s: Seq<u8>) -> nat
    decreases s.len(),
{
    if s.len() == 0 {
        0
    } else {
        s[0] as nat + 256 * le_value(s.skip(1))
    }
}

/// How many numbers `n` bytes can tell apart.
pub open spec fn pow256(n: nat) -> nat
    decreases n,
{
    if n == 0 {
        1
    } else {
        256 * pow256((n - 1) as nat)
    }
}

/// The counts for the widths in use.
pub proof fn pow256_values()
    ensures
        pow256(1) == 0x100,
        pow256(2) == 0x1_0000,
        pow256(3) == 0x100_0000,
        pow256(4) == 0x1_0000_0000,
        pow256(8) == 0x1_0000_0000_0000_0000,
{
    reveal_with_fuel(pow256, 9);
}

/// A number that fits is read back from its bytes, of which there are `n`.
pub proof fn le_reads_back(v: nat, n: nat)
    ensures
        le(v, n).len() == n,
        v < pow256(n) ==> le_value(le(v, n)) == v,
    decreases n,
{
    if n > 0 {
        le_reads_back(v / 256, (n - 1) as nat);
        assert(le(v, n).skip(1) =~= le(v / 256, (n - 1) as nat));
    }
}

/// Bytes are written back from the number that they denote.
pub proof fn le_writes_back(s: Seq<u8>)
    ensures
        le(le_value(s), s.len()) == s,
        le_value(s) < pow256(s.len()),
    decreases s.len(),
{
    if s.len() > 0 {
        le_writes_back(s.skip(1));
        assert(le_value(s) / 256 == le_value(s.skip(1)));
        assert(le(le_value(s), s.len()) =~= s);
    }
}

pub proof fn le_unfolds(v: nat)
    ensures
        le(v, 2) == seq![(v % 256) as u8, (v / 256 % 256) as u8],
        le(v, 3) == seq![(v % 256) as u8, (v / 256 % 256) as u8, (v / 256 / 256 % 256) as u8],
        le(v, 4) == seq![
            (v % 256) as u8,
            (v / 256 % 256) as u8,
            (v / 256 / 256 % 256) as u8,
            (v / 256 / 256 / 256 % 256) as u8,
        ],
        le(v, 8) == le(v, 4) + le(v / 256 / 256 / 256 / 256, 4),
{
    reveal_with_fuel(le, 9);
    assert(le(v, 2) =~= seq![(v % 256) as u8, (v / 256 % 256) as u8]);
    assert(le(v, 3) =~= seq![
        (v % 256) as u8,
        (v / 256 % 256) as u8,
        (v / 256 / 256 % 256) as u8,
    ]);
    assert(le(v, 4) =~= seq![
        (v % 256) as u8,
        (v / 256 % 256) as u8,
        (v / 256 / 256 % 256) as u8,
        (v / 256 / 256 / 256 % 256) as u8,
    ]);
    assert(le(v, 8) =~= le(v, 4) + le(v / 256 / 256 / 256 / 256, 4));
}

pub proof fn le_value_unfolds(s: Seq<u8>)
    ensures
        s.len() == 1 ==> le_value(s) == s[0],
        s.len() == 2 ==> le_value(s) == s[0] + 256 * s[1],
        s.len() == 3 ==> le_value(s) == s[0] + 256 * s[1] + 65536 * s[2],
        s.len() == 4 ==> le_value(s) == s[0] + 256 * s[1] + 65536 * s[2] + 16777216 * s[3],
        s.len() == 8 ==> le_value(s) == le_value(s.take(4)) + 4294967296 * le_value(s.skip(4)),
{
    reveal_with_fuel(le_value, 9);
    if s.len() == 1 || s.len() == 2 || s.len() == 3 || s.len() == 4 {
        if s.len() >= 2 {
            assert(s.skip(1)[0] == s[1]);
        }
        if s.len() >= 3 {
            assert(s.skip(1).skip(1)[0] == s[2]);
        }
        if s.len() >= 4 {
            assert(s.skip(1).skip(1).skip(1)[0] == s[3]);
        }
    }
    if s.len() == 8 {
        let t = s.take(4);
        assert(t.skip(1)[0] == s[1]);
        assert(t.skip(1).skip(1)[0] == s[2]);
        assert(t.skip(1).skip(1).skip(1)[0] == s[3]);
        assert(s.skip(1)[0] == s[1]);
        assert(s.skip(1).skip(1)[0] == s[2]);
        assert(s.skip(1).skip(1).skip(1)[0] == s[3]);
        assert(s.skip(1).skip(1).skip(1).skip(1) =~= s.skip(4));
    }
}

// ---------------------------------------------------------------------------
// Reading
// ---------------------------------------------------------------------------
/// What reading a field gives: its value and the position behind it, or an error
/// and the position at which the reader is left.
pub enum Parse<T> {
    Got(T, int),
    Failed(ErrorView, int),
}

/// The next `n` bytes.
pub open spec fn read_bytes(buf: Seq<u8>, pos: int, n: int) -> Parse<Seq<u8>> {
    let left = buf.len() - pos;
    if left < n {
        Parse::Failed(ErrorView::UnexpectedEof { offset: pos, needed: n - left }, pos)
    } else {
        Parse::Got(buf.subrange(pos, pos + n), pos + n)
    }
}

/// The next `n` bytes as a little-endian number.
pub open spec fn read_uint(buf: Seq<u8>, pos: int, n: int) -> Parse<nat> {
    match read_bytes(buf, pos, n) {
        Parse::Failed(e, at) => Parse::Failed(e, at),
        Parse::Got(bytes, next) => Parse::Got(le_value(bytes), next),
    }
}

/// A length-encoded integer: a byte below `0xfb` is the number, and otherwise it
/// says how wide the number behind it is. `0xfb`, the mark of NULL, reads as 0.
pub open spec fn read_lenenc(buf: Seq<u8>, pos: int) -> Parse<nat> {
    match read_uint(buf, pos, 1) {
        Parse::Failed(e, at) => Parse::Failed(e, at),
        Parse::Got(first, next) => if first < 0xfb {
            Parse::Got(first, next)
        } else if first == 0xfb {
            Parse::Got(0, next)
        } else if first == 0xfc {
            read_uint(buf, next, 2)
        } else if first == 0xfd {
            read_uint(buf, next, 3)
        } else if first == 0xfe {
            read_uint(buf, next, 8)
        } else {
            Parse::Failed(ErrorView::InvalidLengthEncoding(0xff), next)
        },
    }
}

/// The bytes behind a length-encoded length.
pub open spec fn read_lenenc_bytes(buf: Seq<u8>, pos: int) -> Parse<Seq<u8>> {
    match read_lenenc(buf, pos) {
        Parse::Failed(e, at) => Parse::Failed(e, at),
        Parse::Got(n, next) => read_bytes(buf, next, (n as usize) as int),
    }
}

/// The first position from `pos` on that holds a zero byte, or the end.
pub open spec fn nul_pos(buf: Seq<u8>, pos: int) -> int
    decreases buf.len() - pos,
{
    if pos >= buf.len() {
        buf.len() as int
    } else if buf[pos] == 0 {
        pos
    } else {
        nul_pos(buf, pos + 1)
    }
}

/// The bytes up to the next zero byte, which is consumed too. Without one the
/// reader is left at the end.
pub open spec fn read_nul(buf: Seq<u8>, pos: int) -> Parse<Seq<u8>> {
    let end = nul_pos(buf, pos);
    if end < buf.len() {
        Parse::Got(buf.subrange(pos, end), end + 1)
    } else {
        Parse::Failed(ErrorView::UnexpectedEof { offset: pos, needed: 1 }, buf.len() as int)
    }
}

/// A forward-only cursor over the payload of one packet.
pub struct PacketReader<'a> {
    buf: &'a [u8],
    pos: usize,
}

impl<'a> PacketReader<'a> {
    #[verifier::type_invariant]
    spec fn in_bounds(self) -> bool {
        self.pos <= self.buf@.len()
    }

    /// The whole payload.
    pub closed spec fn buf(&self) -> Seq<u8> {
        self.buf@
    }

    /// The position of the next byte.
    pub closed spec fn pos(&self) -> int {
        self.pos as int
    }

    /// What a call gave and where it left the reader are what `p` says.
    pub open spec fn left<T>(p: Parse<T>, res: Result<T, ErrorView>, after: Self) -> bool {
        match p {
            Parse::Got(v, next) => res == Ok::<T, ErrorView>(v) && after.pos() == next,
            Parse::Failed(e, at) => res == Err::<T, ErrorView>(e) && after.pos() == at,
        }
    }

    /// A reader over a payload.
    pub fn new(buf: &'a [u8]) -> (r: Self)
        ensures
            r.buf() == buf@,
            r.pos() == 0,
    {
        PacketReader { buf, pos: 0 }
    }

    /// The number of bytes not yet read.
    pub fn remaining(&self) -> (r: usize)
        ensures
            r == self.buf().len() - self.pos(),
    {
        proof {
            use_type_invariant(self);
        }
        self.buf.len() - self.pos
    }

    /// Whether everything has been read.
    pub fn is_empty(&self) -> (r: bool)
        ensures
            r == (self.pos() == self.buf().len()),
    {
        self.remaining() == 0
    }

    /// Checks that `needed` bytes are left.
    fn ensure(&self, needed: usize) -> (r: Result<(), ProtocolError>)
        ensures
            match r {
                Ok(_) => self.pos() + needed <= self.buf().len(),
                Err(e) => self.pos() + needed > self.buf().len() && e@
                    == (ErrorView::UnexpectedEof {
                    offset: self.pos(),
                    needed: needed - (self.buf().len() - self.pos()),
                }),
            },
    {
        let left: usize = self.remaining();
        if left < needed {
            return Err(ProtocolError::UnexpectedEof { offset: self.pos, needed: needed - left });
        }
        Ok(())
    }

    /// Reads a byte.
    pub fn u8(&mut self) -> (r: Result<u8, ProtocolError>)
        ensures
            final(self).buf() == old(self).buf(),
            Self::left(read_uint(old(self).buf(), old(self).pos(), 1), num_result(r), *final(self)),
    {
        proof {
            use_type_invariant(&*self);
        }
        self.ensure(1)?;
        let b: u8 = self.buf[self.pos];
        proof {
            le_value_unfolds(self.buf@.subrange(self.pos as int, self.pos + 1));
        }
        self.pos = self.pos + 1;
        Ok(b)
    }

    /// Reads a 2-byte integer.
    pub fn u16(&mut self) -> (r: Result<u16, ProtocolError>)
        ensures
            final(self).buf() == old(self).buf(),
            Self::left(read_uint(old(self).buf(), old(self).pos(), 2), num_result(r), *final(self)),
    {
        proof {
            use_type_invariant(&*self);
        }
        self.ensure(2)?;
        proof {
            le_value_unfolds(self.buf@.subrange(self.pos as int, self.pos + 2));
        }
        let v: u16 = self.buf[self.pos] as u16 + 256 * (self.buf[self.pos + 1] as u16);
        self.pos = self.pos + 2;
        Ok(v)
    }

    /// Reads a 3-byte integer.
    pub fn u24(&mut self) -> (r: Result<u32, ProtocolError>)
        ensures
            final(self).buf() == old(self).buf(),
            Self::left(read_uint(old(self).buf(), old(self).pos(), 3), num_result(r), *final(self)),
    {
        proof {
            use_type_invariant(&*self);
        }
        self.ensure(3)?;
        proof {
            le_value_unfolds(self.buf@.subrange(self.pos as int, self.pos + 3));
        }
        let v: u32 = self.buf[self.pos] as u32 + 256 * (self.buf[self.pos + 1] as u32) + 65536 * (
        self.buf[self.pos + 2] as u32);
        self.pos = self.pos + 3;
        Ok(v)
    }

    /// Reads a 4-byte integer.
    pub fn u32(&mut self) -> (r: Result<u32, ProtocolError>)
        ensures
            final(self).buf() == old(self).buf(),
            Self::left(read_uint(old(self).buf(), old(self).pos(), 4), num_result(r), *final(self)),
    {
        proof {
            use_type_invariant(&*self);
        }
        self.ensure(4)?;
        proof {
            le_value_unfolds(self.buf@.subrange(self.pos as int, self.pos + 4));
        }
        let v: u32 = self.buf[self.pos] as u32 + 256 * (self.buf[self.pos + 1] as u32) + 65536 * (
        self.buf[self.pos + 2] as u32) + 16777216 * (self.buf[self.pos + 3] as u32);
        self.pos = self.pos + 4;
        Ok(v)
    }

    /// Reads an 8-byte integer.
    pub fn u64(&mut self) -> (r: Result<u64, ProtocolError>)
        ensures
            final(self).buf() == old(self).buf(),
            Self::left(read_uint(old(self).buf(), old(self).pos(), 8), num_result(r), *final(self)),
    {
        proof {
            use_type_invariant(&*self);
        }
        self.ensure(8)?;
        let ghost b = self.buf@.subrange(self.pos as int, self.pos + 8);
        proof {
            le_value_unfolds(b);
            assert(b.take(4) =~= self.buf@.subrange(self.pos as int, self.pos + 4));
            assert(b.skip(4) =~= self.buf@.subrange(self.pos + 4, self.pos + 8));
        }
        let low: u32 = self.u32()?;
        proof {
            use_type_invariant(&*self);
        }
        let high: u32 = self.u32()?;
        Ok(low as u64 + 4294967296 * (high as u64))
    }

    /// Reads a length-encoded integer.
    pub fn lenenc_u64(&mut self) -> (r: Result<u64, ProtocolError>)
        ensures
            final(self).buf() == old(self).buf(),
            Self::left(read_lenenc(old(self).buf(), old(self).pos()), num_result(r), *final(self)),
    {
        let first: u8 = self.u8()?;
        match first {
            0xfb => Ok(0),
            0xfc => {
                let v: u16 = self.u16()?;
                Ok(v as u64)
            },
            0xfd => {
                let v: u32 = self.u24()?;
                Ok(v as u64)
            },
            0xfe => self.u64(),
            0xff => Err(ProtocolError::InvalidLengthEncoding(0xff)),
            n => Ok(n as u64),
        }
    }

    /// Borrows `n` bytes.
    pub fn bytes(&mut self, n: usize) -> (r: Result<&'a [u8], ProtocolError>)
        ensures
            final(self).buf() == old(self).buf(),
            Self::left(
                read_bytes(old(self).buf(), old(self).pos(), n as int),
                slice_result(r),
                *final(self),
            ),
    {
        proof {
            use_type_invariant(&*self);
        }
        self.ensure(n)?;
        let total: usize = self.buf.len();
        assert(self.pos + n <= total);
        let slice = &self.buf[self.pos..self.pos + n];
        self.pos = self.pos + n;
        Ok(slice)
    }

    /// Skips `n` bytes.
    pub fn skip(&mut self, n: usize) -> (r: Result<(), ProtocolError>)
        ensures
            final(self).buf() == old(self).buf(),
            match read_bytes(old(self).buf(), old(self).pos(), n as int) {
                Parse::Got(_, next) => r is Ok && final(self).pos() == next,
                Parse::Failed(e, at) => r is Err && r->Err_0@ == e && final(self).pos() == at,
            },
    {
        proof {
            use_type_invariant(&*self);
        }
        self.ensure(n)?;
        let total: usize = self.buf.len();
        assert(self.pos + n <= total);
        self.pos = self.pos + n;
        Ok(())
    }

    /// Borrows the bytes up to the next zero byte, and consumes that too.
    pub fn null_terminated(&mut self) -> (r: Result<&'a [u8], ProtocolError>)
        ensures
            final(self).buf() == old(self).buf(),
            Self::left(
                read_nul(old(self).buf(), old(self).pos()),
                slice_result(r),
                *final(self),
            ),
    {
        proof {
            use_type_invariant(&*self);
        }
        let start: usize = self.pos;
        let mut end: usize = start;
        while end < self.buf.len() && self.buf[end] != 0
            invariant
                start <= end <= self.buf@.len(),
                nul_pos(self.buf@, start as int) == nul_pos(self.buf@, end as int),
            decreases self.buf@.len() - end,
        {
            end = end + 1;
        }
        if end < self.buf.len() {
            let slice = &self.buf[start..end];
            self.pos = end + 1;
            Ok(slice)
        } else {
            self.pos = end;
            Err(ProtocolError::UnexpectedEof { offset: start, needed: 1 })
        }
    }

    /// Borrows a length-encoded byte string.
    pub fn lenenc_bytes(&mut self) -> (r: Result<&'a [u8], ProtocolError>)
        ensures
            final(self).buf() == old(self).buf(),
            Self::left(
                read_lenenc_bytes(old(self).buf(), old(self).pos()),
                slice_result(r),
                *final(self),
            ),
    {
        let len: u64 = self.lenenc_u64()?;
        self.bytes(len as usize)
    }

    /// Borrows everything that is left.
    pub fn rest(&mut self) -> (r: &'a [u8])
        ensures
            final(self).buf() == old(self).buf(),
            final(self).pos() == old(self).buf().len(),
            r@ == old(self).buf().skip(old(self).pos()),
    {
        proof {
            use_type_invariant(&*self);
        }
        let slice = &self.buf[self.pos..self.buf.len()];
        self.pos = self.buf.len();
        slice
    }
}

/// A copy of `bytes`.
pub fn copy_bytes(bytes: &[u8]) -> (r: Vec<u8>)
    ensures
        r@ == bytes@,
{
    let mut r: Vec<u8> = Vec::new();
    r.extend_from_slice(bytes);
    assert(r@ =~= bytes@);
    r
}

/// The integers that fields hold.
pub trait FieldNumber {
    spec fn number(&self) -> nat;
}

impl FieldNumber for u8 {
    open spec fn number(&self) -> nat {
        *self as nat
    }
}

impl FieldNumber for u16 {
    open spec fn number(&self) -> nat {
        *self as nat
    }
}

impl FieldNumber for u32 {
    open spec fn number(&self) -> nat {
        *self as nat
    }
}

impl FieldNumber for u64 {
    open spec fn number(&self) -> nat {
        *self as nat
    }
}

/// The model of a result that holds an integer.
pub open spec fn num_result<N: FieldNumber>(r: Result<N, ProtocolError>) -> Result<nat, ErrorView> {
    match r {
        Ok(n) => Ok(n.number()),
        Err(e) => Err(e@),
    }
}

/// The model of a result that holds bytes.
pub open spec fn slice_result(r: Result<&[u8], ProtocolError>) -> Result<Seq<u8>, ErrorView> {
    match r {
        Ok(s) => Ok(s@),
        Err(e) => Err(e@),
    }
}

/// Decodes bytes as UTF-8; a failure names the field.
pub fn utf8(field: &'static str, bytes: &[u8]) -> (r: Result<String, ProtocolError>)
    ensures
        string_result(r) == utf8_field(field@, bytes@),
{
    match crate::text::decode_str(bytes) {
        Some(s) => Ok(s),
        None => Err(ProtocolError::InvalidUtf8 { field }),
    }
}

/// The text of a field that must be UTF-8.
pub open spec fn utf8_field(field: Seq<char>, bytes: Seq<u8>) -> Result<Seq<char>, ErrorView> {
    if vstd::utf8::valid_utf8(bytes) {
        Ok(vstd::utf8::decode_utf8(bytes))
    } else {
        Err(ErrorView::InvalidUtf8 { field })
    }
}

/// The model of a result that holds text.
pub open spec fn string_result(r: Result<String, ProtocolError>) -> Result<Seq<char>, ErrorView> {
    match r {
        Ok(s) => Ok(s@),
        Err(e) => Err(e@),
    }
}

// ---------------------------------------------------------------------------
// Writing
// ---------------------------------------------------------------------------
/// A length-encoded integer, in the shortest form that holds it.
pub open spec fn lenenc(v: nat) -> Seq<u8> {
    if v < 0xfb {
        seq![v as u8]
    } else if v <= 0xffff {
        seq![0xfcu8] + le(v, 2)
    } else if v <= 0xff_ffff {
        seq![0xfdu8] + le(v, 3)
    } else {
        seq![0xfeu8] + le(v, 8)
    }
}

/// A length-encoded byte string.
pub open spec fn lenenc_string(b: Seq<u8>) -> Seq<u8> {
    lenenc(b.len()) + b
}

/// So many zero bytes.
pub open spec fn zero_bytes(n: nat) -> Seq<u8> {
    Seq::new(n, |i: int| 0u8)
}

/// A builder for the payload of one packet.
pub struct PacketWriter {
    buf: Vec<u8>,
}

impl View for PacketWriter {
    type V = Seq<u8>;

    closed spec fn view(&self) -> Seq<u8> {
        self.buf@
    }
}

impl Default for PacketWriter {
    fn default() -> (r: Self)
        ensures
            r@ == Seq::<u8>::empty(),
    {
        PacketWriter::new()
    }
}

impl PacketWriter {
    /// An empty writer.
    pub fn new() -> (r: Self)
        ensures
            r@ == Seq::<u8>::empty(),
    {
        PacketWriter { buf: Vec::new() }
    }

    /// An empty writer with room for `cap` bytes.
    pub fn with_capacity(cap: usize) -> (r: Self)
        ensures
            r@ == Seq::<u8>::empty(),
    {
        PacketWriter { buf: Vec::with_capacity(cap) }
    }

    /// The number of bytes written.
    pub fn len(&self) -> (r: usize)
        ensures
            r == self@.len(),
    {
        self.buf.len()
    }

    /// Whether nothing has been written.
    pub fn is_empty(&self) -> (r: bool)
        ensures
            r == (self@.len() == 0),
    {
        self.buf.len() == 0
    }

    /// Writes a byte.
    pub fn u8(&mut self, v: u8) -> (r: &mut Self)
        ensures
            r@ == old(self)@ + seq![v],
            *final(self) == *final(r),
    {
        self.buf.push(v);
        assert(self.buf@ =~= old(self).buf@ + seq![v]);
        self
    }

    /// Writes a 2-byte integer.
    pub fn u16(&mut self, v: u16) -> (r: &mut Self)
        ensures
            r@ == old(self)@ + le(v as nat, 2),
            *final(self) == *final(r),
    {
        proof {
            le_unfolds(v as nat);
        }
        self.buf.push((v % 256) as u8);
        self.buf.push((v / 256) as u8);
        assert(self.buf@ =~= old(self).buf@ + le(v as nat, 2));
        self
    }

    /// Writes the low three bytes of an integer.
    pub fn u24(&mut self, v: u32) -> (r: &mut Self)
        ensures
            r@ == old(self)@ + le(v as nat, 3),
            *final(self) == *final(r),
    {
        proof {
            le_unfolds(v as nat);
        }
        self.buf.push((v % 256) as u8);
        self.buf.push((v / 256 % 256) as u8);
        self.buf.push((v / 256 / 256 % 256) as u8);
        assert(self.buf@ =~= old(self).buf@ + le(v as nat, 3));
        self
    }

    /// Writes a 4-byte integer.
    pub fn u32(&mut self, v: u32) -> (r: &mut Self)
        ensures
            r@ == old(self)@ + le(v as nat, 4),
            *final(self) == *final(r),
    {
        proof {
            le_unfolds(v as nat);
        }
        self.buf.push((v % 256) as u8);
        self.buf.push((v / 256 % 256) as u8);
        self.buf.push((v / 256 / 256 % 256) as u8);
        self.buf.push((v / 256 / 256 / 256) as u8);
        assert(self.buf@ =~= old(self).buf@ + le(v as nat, 4));
        self
    }

    /// Writes an 8-byte integer.
    pub fn u64(&mut self, v: u64) -> (r: &mut Self)
        ensures
            r@ == old(self)@ + le(v as nat, 8),
            *final(self) == *final(r),
    {
        let low: u32 = (v % 4294967296) as u32;
        let high: u32 = (v / 4294967296) as u32;
        proof {
            le_unfolds(v as nat);
            le_takes_low_bytes(v as nat, 4);
            reveal_with_fuel(pow256, 5);
            assert(v as nat / 256 / 256 / 256 / 256 == high as nat);
            assert(old(self)@ + le(low as nat, 4) + le(high as nat, 4) =~= old(self)@ + (le(
                low as nat,
                4,
            ) + le(high as nat, 4)));
        }
        self.u32(low);
        self.u32(high)
    }

    /// Writes a length-encoded integer.
    pub fn lenenc_u64(&mut self, v: u64) -> (r: &mut Self)
        ensures
            r@ == old(self)@ + lenenc(v as nat),
            *final(self) == *final(r),
    {
        let ghost before = self@;
        if v < 0xfb {
            self.u8(v as u8)
        } else if v <= 0xffff {
            self.u8(0xfc);
            assert(before + seq![0xfcu8] + le(v as nat, 2) =~= before + (seq![0xfcu8] + le(
                v as nat,
                2,
            )));
            self.u16(v as u16)
        } else if v <= 0xff_ffff {
            self.u8(0xfd);
            assert(before + seq![0xfdu8] + le(v as nat, 3) =~= before + (seq![0xfdu8] + le(
                v as nat,
                3,
            )));
            self.u24(v as u32)
        } else {
            self.u8(0xfe);
            assert(before + seq![0xfeu8] + le(v as nat, 8) =~= before + (seq![0xfeu8] + le(
                v as nat,
                8,
            )));
            self.u64(v)
        }
    }

    /// Writes bytes as they are.
    pub fn bytes(&mut self, b: &[u8]) -> (r: &mut Self)
        ensures
            r@ == old(self)@ + b@,
            *final(self) == *final(r),
    {
        self.buf.extend_from_slice(b);
        assert(self.buf@ =~= old(self).buf@ + b@);
        self
    }

    /// Writes bytes and a zero byte behind them.
    pub fn null_terminated(&mut self, b: &[u8]) -> (r: &mut Self)
        ensures
            r@ == old(self)@ + b@ + seq![0u8],
            *final(self) == *final(r),
    {
        self.bytes(b);
        self.u8(0)
    }

    /// Writes a length-encoded byte string.
    pub fn lenenc_bytes(&mut self, b: &[u8]) -> (r: &mut Self)
        ensures
            r@ == old(self)@ + lenenc_string(b@),
            *final(self) == *final(r),
    {
        let ghost before = self@;
        self.lenenc_u64(b.len() as u64);
        assert(before + lenenc(b@.len()) + b@ =~= before + (lenenc(b@.len()) + b@));
        self.bytes(b)
    }

    /// Writes `n` zero bytes.
    pub fn fill(&mut self, n: usize) -> (r: &mut Self)
        requires
            old(self)@.len() + n <= usize::MAX,
        ensures
            r@ == old(self)@ + zero_bytes(n as nat),
            *final(self) == *final(r),
    {
        let len: usize = self.buf.len();
        self.buf.resize(len + n, 0);
        assert(self.buf@ =~= old(self).buf@ + zero_bytes(n as nat));
        self
    }

    /// The payload.
    pub fn into_bytes(self) -> (r: Vec<u8>)
        ensures
            r@ == self@,
    {
        self.buf
    }

    /// The payload so far.
    pub fn as_bytes(&self) -> (r: &[u8])
        ensures
            r@ == self@,
    {
        self.buf.as_slice()
    }
}

/// Only the low `n` bytes of a number matter to its `n` bytes.
pub proof fn le_takes_low_bytes(v: nat, n: nat)
    ensures
        le(v, n) == le(v % pow256(n), n),
        pow256(n) > 0,
    decreases n,
{
    if n > 0 {
        let p = pow256((n - 1) as nat);
        le_takes_low_bytes(v / 256, (n - 1) as nat);
        vstd::arithmetic::div_mod::lemma_breakdown(v as int, 256, p as int);
        let m = (v / 256) % p;
        let w = v % pow256(n);
        assert(w == 256 * m + v % 256);
        assert(w % 256 == v % 256);
        assert(w / 256 == m);
    }
}

// ---------------------------------------------------------------------------
// What is written is read back
// ---------------------------------------------------------------------------
/// The bytes `b` stand in `buf` at `pos`.
pub open spec fn stands_at(buf: Seq<u8>, pos: int, b: Seq<u8>) -> bool {
    0 <= pos && pos + b.len() <= buf.len() && buf.subrange(pos, pos + b.len()) == b
}

/// A fixed-width integer is read back, wherever it stands in a payload.
pub proof fn uint_roundtrips(buf: Seq<u8>, pos: int, v: nat, n: nat)
    requires
        v < pow256(n),
        stands_at(buf, pos, le(v, n)),
    ensures
        read_uint(buf, pos, n as int) == Parse::Got(v, pos + n),
{
    le_reads_back(v, n);
}

/// A length-encoded integer is read back, wherever it stands in a payload, and
/// the reader is left just behind it.
pub proof fn lenenc_roundtrips(buf: Seq<u8>, pos: int, v: u64)
    requires
        stands_at(buf, pos, lenenc(v as nat)),
    ensures
        read_lenenc(buf, pos) == Parse::Got(v as nat, pos + lenenc(v as nat).len()),
{
    let b = lenenc(v as nat);
    let here = buf.subrange(pos, pos + b.len());
    assert(here[0] == b[0]);
    le_value_unfolds(buf.subrange(pos, pos + 1));
    reveal_with_fuel(pow256, 9);
    if v < 0xfb {
    } else if v <= 0xffff {
        le_reads_back(v as nat, 2);
        assert(buf.subrange(pos + 1, pos + 3) =~= b.skip(1));
        assert(b.skip(1) =~= le(v as nat, 2));
    } else if v <= 0xff_ffff {
        le_reads_back(v as nat, 3);
        assert(buf.subrange(pos + 1, pos + 4) =~= b.skip(1));
        assert(b.skip(1) =~= le(v as nat, 3));
    } else {
        le_reads_back(v as nat, 8);
        assert(buf.subrange(pos + 1, pos + 9) =~= b.skip(1));
        assert(b.skip(1) =~= le(v as nat, 8));
    }
}

/// A length-encoded byte string is read back, wherever it stands in a payload.
pub proof fn lenenc_string_roundtrips(buf: Seq<u8>, pos: int, s: Seq<u8>)
    requires
        s.len() <= usize::MAX,
        stands_at(buf, pos, lenenc_string(s)),
    ensures
        read_lenenc_bytes(buf, pos) == Parse::Got(s, pos + lenenc_string(s).len()),
{
    let v = s.len() as u64;
    let n = lenenc(s.len()).len();
    let here = buf.subrange(pos, pos + lenenc_string(s).len());
    assert(buf.subrange(pos, pos + n) =~= here.take(n as int));
    assert(here.take(n as int) =~= lenenc(s.len()));
    lenenc_roundtrips(buf, pos, v);
    assert(buf.subrange(pos + n, pos + n + s.len()) =~= here.skip(n as int));
    assert(here.skip(n as int) =~= s);
}

/// A byte string without zero bytes is read back from its terminated form,
/// wherever it stands in a payload.
pub proof fn nul_roundtrips(buf: Seq<u8>, pos: int, s: Seq<u8>)
    requires
        forall|i: int| 0 <= i < s.len() ==> s[i] != 0,
        stands_at(buf, pos, s + seq![0u8]),
    ensures
        read_nul(buf, pos) == Parse::Got(s, pos + s.len() + 1),
{
    let here = buf.subrange(pos, pos + s.len() + 1);
    assert forall|i: int| pos <= i < pos + s.len() implies buf[i] != 0 by {
        assert(here[i - pos] == (s + seq![0u8])[i - pos]);
    }
    assert(here[s.len() as int] == 0);
    nul_pos_skips(buf, pos, pos + s.len());
    assert(buf.subrange(pos, pos + s.len()) =~= s) by {
        assert forall|i: int| 0 <= i < s.len() implies buf[pos + i] == s[i] by {
            assert(here[i] == (s + seq![0u8])[i]);
        }
    }
}

proof fn nul_pos_skips(buf: Seq<u8>, pos: int, end: int)
    requires
        0 <= pos <= end < buf.len(),
        forall|i: int| pos <= i < end ==> buf[i] != 0,
        buf[end] == 0,
    ensures
        nul_pos(buf, pos) == end,
    decreases end - pos,
{
    if pos < end {
        nul_pos_skips(buf, pos + 1, end);
    }
}

/// How a length-encoded integer is written: in one byte below `0xfb`, and otherwise
/// behind `0xfc`, `0xfd` or `0xfe` in two, three or eight bytes, the fewest that hold
/// it, with the low byte first.
pub proof fn lenenc_is_shortest(v: u64)
    ensures
        ({
            let b = lenenc(v as nat);
            &&& v < 0xfb ==> b.len() == 1 && b[0] == v
            &&& 0xfb <= v < 0x1_0000 ==> b.len() == 3 && b[0] == 0xfc && b[1] + 0x100 * b[2] == v
            &&& 0x1_0000 <= v < 0x100_0000 ==> b.len() == 4 && b[0] == 0xfd && b[1] + 0x100 * b[2]
                + 0x1_0000 * b[3] == v
            &&& v >= 0x100_0000 ==> b.len() == 9 && b[0] == 0xfe && b[1] + 0x100 * b[2] + 0x1_0000
                * b[3] + 0x100_0000 * b[4] + 0x1_0000_0000 * (b[5] + 0x100 * b[6] + 0x1_0000 * b[7]
                + 0x100_0000 * b[8]) == v
        }),
{
    let b = lenenc(v as nat);
    pow256_values();
    if v >= 0xfb {
        let n: nat = if v <= 0xffff {
            2
        } else if v <= 0xff_ffff {
            3
        } else {
            8
        };
        let s = le(v as nat, n);
        le_reads_back(v as nat, n);
        le_value_unfolds(s);
        assert(b.skip(1) =~= s);
        if n == 8 {
            le_value_unfolds(s.take(4));
            le_value_unfolds(s.skip(4));
        }
    }
}

/// A length-encoded byte string is its length and its bytes.
pub proof fn lenenc_string_is_length_and_bytes(s: Seq<u8>)
    ensures
        lenenc_string(s).take(lenenc(s.len()).len() as int) == lenenc(s.len()),
        lenenc_string(s).skip(lenenc(s.len()).len() as int) == s,
{
    let n = lenenc(s.len()).len() as int;
    assert(lenenc_string(s).take(n) =~= lenenc(s.len()));
    assert(lenenc_string(s).skip(n) =~= s);
}

/// What is cut short is not read: the error tells where the field starts and how many
/// bytes are missing, and the reader stays.
pub proof fn short_fields_are_refused(buf: Seq<u8>, pos: int, n: int)
    requires
        0 <= pos <= buf.len(),
        buf.len() < pos + n,
    ensures
        read_bytes(buf, pos, n) == Parse::<Seq<u8>>::Failed(
            ErrorView::UnexpectedEof { offset: pos, needed: pos + n - buf.len() },
            pos,
        ),
        read_uint(buf, pos, n) == Parse::<nat>::Failed(
            ErrorView::UnexpectedEof { offset: pos, needed: pos + n - buf.len() },
            pos,
        ),
{
}

/// `0xfb` in place of a length reads as zero, and `0xff` is refused.
pub proof fn reserved_lengths(buf: Seq<u8>, pos: int)
    requires
        0 <= pos < buf.len(),
    ensures
        buf[pos] == 0xfb ==> read_lenenc(buf, pos) == Parse::Got(0nat, pos + 1),
        buf[pos] == 0xff ==> read_lenenc(buf, pos) == Parse::<nat>::Failed(
            ErrorView::InvalidLengthEncoding(0xff),
            pos + 1,
        ),
{
    assert(buf.subrange(pos, pos + 1) =~= seq![buf[pos]]);
    le_value_unfolds(seq![buf[pos]]);
}

/// Text that was encoded is decoded to itself, and bytes that encode none are refused
/// by the field's name.
pub proof fn text_fields_roundtrip(field: Seq<char>, s: Seq<char>, bytes: Seq<u8>)
    ensures
        utf8_field(field, vstd::utf8::encode_utf8(s)) == Ok::<Seq<char>, ErrorView>(s),
        !vstd::utf8::valid_utf8(bytes) ==> utf8_field(field, bytes) == Err::<Seq<char>, ErrorView>(
            ErrorView::InvalidUtf8 { field },
        ),
{
    vstd::utf8::encode_utf8_valid_utf8(s);
    vstd::utf8::encode_utf8_decode_utf8(s);
}

} // verus!
