//! Packet framing: a 3-byte length, a 1-byte sequence id, and the payload. A
//! payload of [`MAX_PAYLOAD`] bytes or more takes several frames.

use vstd::prelude::*;

use crate::protocol::error::ProtocolError;
use crate::protocol::packet;

verus! {

/// Length of a frame header.
pub const HEADER_LEN: usize = 4;

/// The most that one frame carries. A frame of this size is always followed by
/// another one, which may be empty.
pub const MAX_PAYLOAD: usize = 0xff_ffff;

/// The sequence id behind `seq`.
pub open spec fn next_id(seq: u8) -> u8 {
    ((seq + 1) % 256) as u8
}

/// The header of a frame.
pub open spec fn header(len: nat, seq: u8) -> Seq<u8> {
    packet::le(len, 3) + seq![seq]
}

/// The frames of a payload, the first of them numbered `seq`.
pub open spec fn frames(seq: u8, payload: Seq<u8>) -> Seq<u8>
    decreases payload.len(),
{
    if payload.len() < MAX_PAYLOAD {
        header(payload.len(), seq) + payload
    } else {
        header(MAX_PAYLOAD as nat, seq) + payload.take(MAX_PAYLOAD as int) + frames(
            next_id(seq),
            payload.skip(MAX_PAYLOAD as int),
        )
    }
}

/// The sequence id behind the frames of a payload.
pub open spec fn seq_after(seq: u8, payload: Seq<u8>) -> u8
    decreases payload.len(),
{
    if payload.len() < MAX_PAYLOAD {
        next_id(seq)
    } else {
        seq_after(next_id(seq), payload.skip(MAX_PAYLOAD as int))
    }
}

/// Every [`MAX_PAYLOAD`] bytes of a payload, and one more frame, move the
/// sequence id on by one.
pub proof fn seq_after_counts_frames(seq: u8, payload: Seq<u8>)
    ensures
        seq_after(seq, payload) as int == (seq + payload.len() / MAX_PAYLOAD as nat + 1) % 256,
    decreases payload.len(),
{
    if payload.len() >= MAX_PAYLOAD {
        let rest = payload.skip(MAX_PAYLOAD as int);
        seq_after_counts_frames(next_id(seq), rest);
        assert(payload.len() / MAX_PAYLOAD as nat == rest.len() / MAX_PAYLOAD as nat + 1);
    }
}

/// Appends `payload` in frames, the first of them numbered `seq`, and gives the
/// sequence id behind them.
pub fn encode_frame(out: &mut Vec<u8>, seq: u8, payload: &[u8]) -> (next: u8)
    ensures
        final(out)@ == old(out)@ + frames(seq, payload@),
        next == seq_after(seq, payload@),
{
    let mut id: u8 = seq;
    let mut done: usize = 0;
    assert(payload@.skip(0) =~= payload@);
    assert(out@ + frames(seq, payload@) =~= old(out)@ + frames(seq, payload@));
    while payload.len() - done >= MAX_PAYLOAD
        invariant
            done <= payload@.len(),
            out@ + frames(id, payload@.skip(done as int)) == old(out)@ + frames(seq, payload@),
            seq_after(id, payload@.skip(done as int)) == seq_after(seq, payload@),
        decreases payload@.len() - done,
    {
        let ghost before = out@;
        let ghost rest = payload@.skip(done as int);
        write_header(out, MAX_PAYLOAD, id);
        let chunk = &payload[done..done + MAX_PAYLOAD];
        out.extend_from_slice(chunk);
        proof {
            assert(chunk@ =~= rest.take(MAX_PAYLOAD as int));
            assert(rest.skip(MAX_PAYLOAD as int) =~= payload@.skip(done + MAX_PAYLOAD));
            let tail = frames(next_id(id), rest.skip(MAX_PAYLOAD as int));
            assert(before + (header(MAX_PAYLOAD as nat, id) + chunk@ + tail) =~= out@ + tail);
        }
        id = id.wrapping_add(1);
        done = done + MAX_PAYLOAD;
    }
    let last = &payload[done..payload.len()];
    let ghost before = out@;
    write_header(out, last.len(), id);
    out.extend_from_slice(last);
    proof {
        assert(last@ =~= payload@.skip(done as int));
        assert(before + (header(last@.len(), id) + last@) =~= out@);
    }
    id.wrapping_add(1)
}

fn write_header(out: &mut Vec<u8>, len: usize, seq: u8)
    requires
        len <= MAX_PAYLOAD,
    ensures
        final(out)@ == old(out)@ + header(len as nat, seq),
{
    out.push((len % 256) as u8);
    out.push((len / 256 % 256) as u8);
    out.push((len / 256 / 256) as u8);
    out.push(seq);
    proof {
        packet::le_unfolds(len as nat);
    }
    assert(out@ =~= old(out)@ + header(len as nat, seq));
}

/// The payload length and the sequence id that a header gives.
pub fn parse_header(header: &[u8; HEADER_LEN]) -> (r: (usize, u8))
    ensures
        r.0 == packet::le_value(header@.take(3)),
        r.0 <= MAX_PAYLOAD,
        r.1 == header@[3],
{
    proof {
        packet::le_value_unfolds(header@.take(3));
    }
    let len: u32 = header[0] as u32 + 256 * (header[1] as u32) + 65536 * (header[2] as u32);
    (len as usize, header[3])
}

/// A complete packet, put together from its frames.
#[derive(Debug, PartialEq, Eq)]
pub struct Packet {
    /// Sequence id of the first frame.
    pub seq: u8,
    /// The payload.
    pub payload: Vec<u8>,
}

/// The payload of the packet whose first frame stands at `pos`, and the position
/// behind its last frame; `None` while bytes are missing.
pub open spec fn packet_at(buf: Seq<u8>, pos: int) -> Option<(Seq<u8>, int)>
    decreases buf.len() - pos,
{
    if buf.len() - pos < HEADER_LEN {
        None
    } else {
        let len = packet::le_value(buf.subrange(pos, pos + 3));
        let start = pos + HEADER_LEN;
        if buf.len() - start < len {
            None
        } else if len < MAX_PAYLOAD {
            Some((buf.subrange(start, start + len), start + len))
        } else {
            match packet_at(buf, start + len) {
                None => None,
                Some((rest, end)) => Some((buf.subrange(start, start + len) + rest, end)),
            }
        }
    }
}

/// Puts packets together from bytes that arrive in pieces of any size.
pub struct FrameDecoder {
    buf: Vec<u8>,
    cursor: usize,
}

impl View for FrameDecoder {
    type V = Seq<u8>;

    /// The bytes that were received and belong to no packet given out so far.
    closed spec fn view(&self) -> Seq<u8> {
        self.buf@.skip(self.cursor as int)
    }
}

impl Default for FrameDecoder {
    fn default() -> (r: Self)
        ensures
            r@ == Seq::<u8>::empty(),
    {
        FrameDecoder::new()
    }
}

impl FrameDecoder {
    #[verifier::type_invariant]
    spec fn in_bounds(self) -> bool {
        self.cursor <= self.buf@.len()
    }

    /// A decoder that has received nothing.
    pub fn new() -> (r: Self)
        ensures
            r@ == Seq::<u8>::empty(),
    {
        let r = FrameDecoder { buf: Vec::new(), cursor: 0 };
        assert(r@ =~= Seq::<u8>::empty());
        r
    }

    /// Adds received bytes.
    pub fn extend(&mut self, bytes: &[u8])
        ensures
            final(self)@ == old(self)@ + bytes@,
    {
        proof {
            use_type_invariant(&*self);
        }
        let mut cursor: usize = self.cursor;
        let mut held: Vec<u8> = Vec::new();
        self.cursor = 0;
        std::mem::swap(&mut held, &mut self.buf);
        // When every byte has been given out, the buffer starts afresh.
        if cursor > 0 && cursor == held.len() {
            held.clear();
            cursor = 0;
        }
        held.extend_from_slice(bytes);
        self.buf = held;
        self.cursor = cursor;
        assert(self@ =~= old(self)@ + bytes@);
    }

    /// Takes the next complete packet; `Ok(None)` while bytes are missing.
    pub fn next_packet(&mut self) -> (r: Result<Option<Packet>, ProtocolError>)
        ensures
            match packet_at(old(self)@, 0) {
                Some((payload, end)) => {
                    &&& r matches Ok(Some(p)) && p.seq == old(self)@[3] && p.payload@ == payload
                    &&& final(self)@ == old(self)@.skip(end)
                },
                None => {
                    &&& r matches Ok(None)
                    &&& final(self)@ == old(self)@
                },
            },
    {
        proof {
            use_type_invariant(&*self);
            packet_at_shifts(self.buf@, self.cursor as int, 0);
        }
        let ghost all = self.buf@;
        let start: usize = self.cursor;
        let mut scan: usize = start;
        let mut payload: Vec<u8> = Vec::new();
        let mut first: bool = true;
        let mut first_seq: u8 = 0;
        proof {
            if let Some((rest, end)) = packet_at(all, scan as int) {
                assert(payload@ + rest =~= rest);
            }
        }
        loop
            invariant
                self.buf@ == all,
                self.cursor == start,
                start <= scan <= all.len(),
                first ==> scan == start,
                !first ==> all.len() - start >= HEADER_LEN && first_seq == all[start + 3],
                match packet_at(all, scan as int) {
                    Some((rest, end)) => packet_at(all, start as int) == Some(
                        (payload@ + rest, end),
                    ),
                    None => packet_at(all, start as int) is None,
                },
                self@ == old(self)@,
                self@ == all.skip(start as int),
                packet_at(self@, 0) == shifted(packet_at(all, start as int), start as int),
            decreases all.len() - scan,
        {
            if self.buf.len() - scan < HEADER_LEN {
                return Ok(None);
            }
            let head: [u8; 4] = [
                self.buf[scan],
                self.buf[scan + 1],
                self.buf[scan + 2],
                self.buf[scan + 3],
            ];
            assert(head@.take(3) =~= all.subrange(scan as int, scan + 3));
            let (len, seq) = parse_header(&head);
            if self.buf.len() - scan - HEADER_LEN < len {
                return Ok(None);
            }
            let body: usize = scan + HEADER_LEN;
            let ghost before = payload@;
            let chunk = &self.buf.as_slice()[body..body + len];
            payload.extend_from_slice(chunk);
            if first {
                first = false;
                first_seq = seq;
            }
            scan = body + len;
            if len < MAX_PAYLOAD {
                assert(payload@ =~= before + all.subrange(body as int, body + len));
                assert(all.skip(start as int).skip(scan - start) =~= all.skip(scan as int));
                assert(all.skip(start as int)[3] == all[start + 3]);
                self.cursor = scan;
                return Ok(Some(Packet { seq: first_seq, payload }));
            }
            proof {
                if let Some((rest, end)) = packet_at(all, scan as int) {
                    assert(before + (chunk@ + rest) =~= payload@ + rest);
                }
            }
        }
    }
}

/// A found packet as seen from `by` bytes further on.
pub open spec fn shifted(found: Option<(Seq<u8>, int)>, by: int) -> Option<(Seq<u8>, int)> {
    match found {
        Some((payload, end)) => Some((payload, end - by)),
        None => None,
    }
}

/// What stands in front of a packet does not matter to it.
proof fn packet_at_shifts(buf: Seq<u8>, by: int, pos: int)
    requires
        0 <= by <= buf.len(),
        0 <= pos,
    ensures
        packet_at(buf.skip(by), pos) == shifted(packet_at(buf, by + pos), by),
    decreases buf.len() - by - pos,
{
    let tail = buf.skip(by);
    if tail.len() - pos >= HEADER_LEN {
        assert(tail.subrange(pos, pos + 3) =~= buf.subrange(by + pos, by + pos + 3));
        let len = packet::le_value(tail.subrange(pos, pos + 3));
        let start = pos + HEADER_LEN;
        if tail.len() - start >= len {
            assert(tail.subrange(start, start + len) =~= buf.subrange(
                by + start,
                by + start + len,
            ));
            if len >= MAX_PAYLOAD {
                packet_at_shifts(buf, by, start + len);
            }
        }
    }
}

/// A packet that has arrived stays as it is, whatever arrives behind it.
pub proof fn later_bytes_do_not_matter(buf: Seq<u8>, more: Seq<u8>, pos: int)
    requires
        0 <= pos,
        packet_at(buf, pos) is Some,
    ensures
        packet_at(buf + more, pos) == packet_at(buf, pos),
    decreases buf.len() - pos,
{
    let all = buf + more;
    assert(all.subrange(pos, pos + 3) =~= buf.subrange(pos, pos + 3));
    let len = packet::le_value(buf.subrange(pos, pos + 3));
    let start = pos + HEADER_LEN;
    assert(all.subrange(start, start + len) =~= buf.subrange(start, start + len));
    if len >= MAX_PAYLOAD {
        later_bytes_do_not_matter(buf, more, start + len);
    }
}

/// Decoding gives back what was encoded, however many frames it took, and leaves
/// the bytes behind it alone.
pub proof fn frames_roundtrip(seq: u8, payload: Seq<u8>, more: Seq<u8>)
    ensures
        packet_at(frames(seq, payload) + more, 0) == Some(
            (payload, frames(seq, payload).len() as int),
        ),
        (frames(seq, payload) + more)[3] == seq,
{
    let buf = frames(seq, payload) + more;
    assert(buf.subrange(0, frames(seq, payload).len() as int) =~= frames(seq, payload));
    frames_found_at(buf, 0, seq, payload);
    packet::le_reads_back(payload.len(), 3);
    packet::le_reads_back(MAX_PAYLOAD as nat, 3);
    assert(frames(seq, payload)[3] == seq);
}

/// A packet is found wherever its frames stand.
pub proof fn frames_found_at(buf: Seq<u8>, pos: int, seq: u8, payload: Seq<u8>)
    requires
        packet::stands_at(buf, pos, frames(seq, payload)),
    ensures
        packet_at(buf, pos) == Some((payload, pos + frames(seq, payload).len())),
    decreases payload.len(),
{
    let f = frames(seq, payload);
    let here = buf.subrange(pos, pos + f.len());
    let n: nat = if payload.len() < MAX_PAYLOAD {
        payload.len()
    } else {
        MAX_PAYLOAD as nat
    };
    let h = header(n, seq);
    packet::le_reads_back(n, 3);
    reveal_with_fuel(packet::pow256, 4);
    assert(f.take(4) =~= h);
    assert(h.take(3) =~= packet::le(n, 3));
    assert(buf.subrange(pos, pos + 3) =~= here.take(4).take(3));
    assert(packet::le_value(buf.subrange(pos, pos + 3)) == n);
    assert(buf.subrange(pos + 4, pos + 4 + n) =~= here.subrange(4, 4int + n));
    assert(here.subrange(4, 4int + n) =~= payload.take(n as int));
    if payload.len() < MAX_PAYLOAD {
        assert(payload.take(n as int) =~= payload);
    } else {
        let rest = payload.skip(MAX_PAYLOAD as int);
        let g = frames(next_id(seq), rest);
        assert(buf.subrange(pos + 4 + n, pos + f.len()) =~= here.skip(4int + n));
        assert(here.skip(4int + n) =~= g);
        frames_found_at(buf, pos + 4 + n, next_id(seq), rest);
        assert(payload.take(n as int) + rest =~= payload);
    }
}

/// Until its last byte has arrived, a packet is not given out.
pub proof fn incomplete_packet_waits(seq: u8, payload: Seq<u8>, n: int)
    requires
        0 <= n < frames(seq, payload).len(),
    ensures
        packet_at(frames(seq, payload).take(n), 0) is None,
{
    let f = frames(seq, payload);
    if packet_at(f.take(n), 0) is Some {
        later_bytes_do_not_matter(f.take(n), f.skip(n), 0);
        assert(f.take(n) + f.skip(n) =~= f);
        frames_roundtrip(seq, payload, seq![]);
        assert(f + Seq::<u8>::empty() =~= f);
        packet_within(f.take(n), 0);
    }
}

proof fn packet_within(buf: Seq<u8>, pos: int)
    requires
        0 <= pos,
    ensures
        packet_at(buf, pos) matches Some((_, end)) ==> end <= buf.len(),
    decreases buf.len() - pos,
{
    if buf.len() - pos >= HEADER_LEN {
        let len = packet::le_value(buf.subrange(pos, pos + 3));
        let start = pos + HEADER_LEN;
        if buf.len() - start >= len && len >= MAX_PAYLOAD {
            packet_within(buf, start + len);
        }
    }
}

/// A payload of fewer than 16777215 bytes is one frame: its length in three bytes with
/// the low byte first, the sequence id, and the payload. A longer one is cut into
/// frames of that size, and ends with a shorter one.
pub proof fn frame_layout(seq: u8, payload: Seq<u8>)
    ensures
        ({
            let b = frames(seq, payload);
            &&& b[3] == seq
            &&& payload.len() < 16777215 ==> {
                &&& b.len() == 4 + payload.len()
                &&& b[0] + 0x100 * b[1] + 0x1_0000 * b[2] == payload.len()
                &&& b.skip(4) == payload
            }
            &&& payload.len() >= 16777215 ==> {
                &&& b[0] == 0xff && b[1] == 0xff && b[2] == 0xff
                &&& b.subrange(4, 16777219) == payload.take(16777215)
                &&& b.skip(16777219) == frames(
                    ((seq + 1) % 256) as u8,
                    payload.skip(16777215),
                )
            }
        }),
{
    let b = frames(seq, payload);
    packet::pow256_values();
    if payload.len() < 16777215 {
        let h = packet::le(payload.len(), 3);
        packet::le_reads_back(payload.len(), 3);
        packet::le_value_unfolds(h);
        assert(b.skip(4) =~= payload);
    } else {
        let h = packet::le(16777215, 3);
        packet::le_reads_back(16777215, 3);
        packet::le_value_unfolds(h);
        let rest = frames(next_id(seq), payload.skip(16777215));
        assert(b.subrange(4, 16777219) =~= payload.take(16777215));
        assert(b.skip(16777219) =~= rest);
    }
}

/// Sequence ids count up by one, and from 255 back to zero.
pub proof fn ids_wrap(seq: u8)
    ensures
        seq < 255 ==> next_id(seq) == seq + 1,
        seq == 255 ==> next_id(seq) == 0,
{
}

} // verus!
