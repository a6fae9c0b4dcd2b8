//! TTLV stream decoding: accumulates incoming chunks, reverses the
//! byte-stuffing, locates frame boundaries, checks the checksum and parses
//! payloads back into structured commands.

use vstd::prelude::*;

use crate::model::{
    deep_fields, lemma_deep_fields_push, DoubleNeedValue, SpecField, SpecFrame, SpecTransparent,
    SpecValue, TTLVData, TTLVValue, TtlvCommandModel, TtlvTransparentModel,
};
use crate::wire::{
    be16, be_val, lemma_pow256_mono, lemma_pow256_values, pow256, sum8, unstuff, unstuff_bytes,
    wrap8_sum,
};

verus! {

/// Why the decoder rejected a stretch of input.
#[derive(Clone, Copy, Debug, PartialEq, Eq, Structural)]
pub enum DecodeError {
    /// No 0xAA 0xAA preamble anywhere and no trailing 0xAA to wait on.
    NoHeader,
    /// A located frame is too short to hold its checksum byte.
    FrameTooShort,
    /// The frame checksum does not match the wrapping sum of its body.
    CrcMismatch,
    /// The command word is one of the reserved sentinels 0 and 0xFFFF.
    InvalidCmd,
}

/// Mathematical view of one decoder event.
pub enum SpecEvent {
    Success(SpecFrame),
    Transparent(SpecTransparent),
    Incomplete,
    Failure(DecodeError),
}

/// Result of decoding TTLV data.
#[derive(Debug)]
pub enum DecodeResult {
    Success(TtlvCommandModel),
    Transparent(TtlvTransparentModel),
    /// Need more data.
    Incomplete,
    Error(DecodeError),
}

impl DecodeResult {
    /// Mathematical view of this event.
    pub open spec fn deep(self) -> SpecEvent {
        match self {
            DecodeResult::Success(m) => SpecEvent::Success(m.deep()),
            DecodeResult::Transparent(m) => SpecEvent::Transparent(m.deep()),
            DecodeResult::Incomplete => SpecEvent::Incomplete,
            DecodeResult::Error(e) => SpecEvent::Failure(e),
        }
    }
}

/// Mathematical view of a sequence of decoder events.
pub open spec fn events_deep(s: Seq<DecodeResult>) -> Seq<SpecEvent> {
    s.map_values(|e: DecodeResult| e.deep())
}

/// A numeric value assembled from sign, magnitude and decimal exponent:
/// an integer when the exponent is zero, a decimal fraction otherwise.
pub open spec fn mk_num(v: i64, amp: nat) -> SpecValue {
    if amp == 0 {
        SpecValue::Integer(v)
    } else {
        SpecValue::Decimal { value: v, count: amp }
    }
}

/// Parses a numeric body at `offset`: descriptor byte, then magnitude bytes.
/// Yields the value and the bytes consumed, or nothing on overrun or on a
/// magnitude that does not fit a signed 64-bit integer.
pub open spec fn parse_num_at(payload: Seq<u8>, offset: int) -> Option<(SpecValue, nat)> {
    if offset < 0 || offset >= payload.len() {
        None
    } else {
        let d = payload[offset];
        let neg = d >= 128;
        let amp = ((d / 8) % 16) as nat;
        let n = (d % 8 + 1) as nat;
        if offset + 1 + n > payload.len() {
            None
        } else {
            let mag = be_val(payload.subrange(offset + 1, offset + 1 + n));
            if neg {
                if mag <= 0x8000_0000_0000_0000 {
                    Some((mk_num((-(mag as int)) as i64, amp), (1 + n) as nat))
                } else {
                    None
                }
            } else {
                if mag <= 0x7fff_ffff_ffff_ffff {
                    Some((mk_num(mag as i64, amp), (1 + n) as nat))
                } else {
                    None
                }
            }
        }
    }
}

/// Parses a binary body at `offset`: two-byte length, then that many bytes.
/// A zero length or an overrun yields nothing.
pub open spec fn parse_bin_at(payload: Seq<u8>, offset: int) -> Option<(Seq<u8>, nat)> {
    if offset < 0 || offset + 1 >= payload.len() {
        None
    } else {
        let l = be16(payload[offset], payload[offset + 1]);
        if l > 0 && offset + 2 + l <= payload.len() {
            Some((payload.subrange(offset + 2, offset + 2 + l), (2 + l) as nat))
        } else {
            None
        }
    }
}

/// The bytes left to the right of `offset`, padded by the two-byte overshoot
/// a skipped length field can cause; the parsers' termination measure.
pub open spec fn rem_after(payload: Seq<u8>, offset: int) -> nat {
    if offset <= payload.len() + 2 {
        (payload.len() + 2 - offset) as nat
    } else {
        0nat
    }
}

/// Parses the body of one field whose header named id `id` and type `t`.
/// Yields the field (or nothing, when the body cannot be read) and the bytes
/// consumed beyond the header.
pub open spec fn parse_body_at(payload: Seq<u8>, offset: int, id: int, t: int) -> (
    Option<SpecField>,
    nat,
)
    decreases rem_after(payload, offset), 1int,
{
    if t == 0 || t == 1 {
        (
            Some(
                SpecField {
                    id,
                    type_id: t,
                    ttlv: true,
                    value: SpecValue::Boolean(t == 1),
                },
            ),
            0nat,
        )
    } else if t == 3 || t == 5 {
        match parse_bin_at(payload, offset) {
            Some((b, c)) => (
                Some(SpecField { id, type_id: t, ttlv: true, value: SpecValue::Binary(b) }),
                c,
            ),
            None => (None, 2nat),
        }
    } else if t == 2 {
        match parse_num_at(payload, offset) {
            Some((v, c)) => (Some(SpecField { id, type_id: t, ttlv: true, value: v }), c),
            None => (None, 0nat),
        }
    } else if t == 4 {
        match parse_struct_at(payload, offset) {
            Some((fs, c)) => (
                Some(SpecField { id, type_id: t, ttlv: true, value: SpecValue::Struct(fs) }),
                c,
            ),
            None => (None, 0nat),
        }
    } else {
        (None, 0nat)
    }
}

/// Parses a struct body at `offset`: two-byte element count, then that many
/// elements. Yields the children and the bytes consumed; overrun inside an
/// element ends the list early without failing the struct.
pub open spec fn parse_struct_at(payload: Seq<u8>, offset: int) -> Option<(Seq<SpecField>, nat)>
    decreases rem_after(payload, offset), 0int,
{
    if offset < 0 || offset + 1 >= payload.len() {
        None
    } else {
        let m = be16(payload[offset], payload[offset + 1]);
        let (fs, c) = parse_elems_at(payload, offset + 2, m as nat);
        Some((fs, (2 + c) as nat))
    }
}

/// Parses up to `remaining` struct elements starting at `offset`, stopping
/// early when the buffer runs out. Yields the fields and the bytes consumed.
pub open spec fn parse_elems_at(payload: Seq<u8>, offset: int, remaining: nat) -> (
    Seq<SpecField>,
    nat,
)
    decreases rem_after(payload, offset), 2int,
{
    if remaining == 0 || offset < 0 || offset + 1 >= payload.len() {
        (Seq::empty(), 0nat)
    } else {
        let head = be16(payload[offset], payload[offset + 1]);
        let id = head / 8;
        let t = head % 8;
        let (fo, c) = parse_body_at(payload, offset + 2, id, t);
        let (rest, crest) = parse_elems_at(payload, offset + 2 + c, (remaining - 1) as nat);
        let fields = match fo {
            Some(f) => seq![f] + rest,
            None => rest,
        };
        (fields, (2 + c + crest) as nat)
    }
}

/// An element run never consumes more than the bytes to its right (plus the
/// two-byte overshoot of a skipped length field).
pub proof fn lemma_elems_consumed(payload: Seq<u8>, offset: int, remaining: nat)
    requires
        0 <= offset,
    ensures
        parse_elems_at(payload, offset, remaining).1 <= rem_after(payload, offset),
    decreases rem_after(payload, offset), 2int,
{
    if remaining == 0 || offset + 1 >= payload.len() {
    } else {
        let head = be16(payload[offset], payload[offset + 1]);
        let body = parse_body_at(payload, offset + 2, head / 8, head % 8);
        lemma_body_consumed(payload, offset + 2, head / 8, head % 8);
        lemma_elems_consumed(payload, offset + 2 + body.1, (remaining - 1) as nat);
    }
}

pub proof fn lemma_body_consumed(payload: Seq<u8>, offset: int, id: int, t: int)
    requires
        0 <= offset <= payload.len(),
    ensures
        parse_body_at(payload, offset, id, t).1 <= rem_after(payload, offset),
    decreases rem_after(payload, offset), 1int,
{
    if t == 4 {
        lemma_struct_consumed(payload, offset);
    }
}

pub proof fn lemma_struct_consumed(payload: Seq<u8>, offset: int)
    requires
        0 <= offset <= payload.len(),
    ensures
        match parse_struct_at(payload, offset) {
            Some((fs, c)) => c <= rem_after(payload, offset),
            None => true,
        },
    decreases rem_after(payload, offset), 0int,
{
    if 0 <= offset && offset + 1 < payload.len() {
        lemma_elems_consumed(payload, offset + 2, be16(payload[offset], payload[offset + 1]) as nat);
    }
}

/// Parses fields from `offset` to the end of the payload, skipping over
/// bodies that cannot be read.
pub open spec fn parse_fields_at(payload: Seq<u8>, offset: int) -> Seq<SpecField>
    decreases rem_after(payload, offset), 2int,
{
    if offset < 0 || offset + 1 >= payload.len() {
        Seq::empty()
    } else {
        let head = be16(payload[offset], payload[offset + 1]);
        let id = head / 8;
        let t = head % 8;
        let (fo, c) = parse_body_at(payload, offset + 2, id, t);
        let rest = parse_fields_at(payload, offset + 2 + c);
        match fo {
            Some(f) => seq![f] + rest,
            None => rest,
        }
    }
}

/// The command frame a validated frame parses to.
pub open spec fn parse_payload_spec(frame: Seq<u8>) -> SpecFrame {
    SpecFrame {
        packet_id: if frame.len() >= 7 {
            be16(frame[5], frame[6])
        } else {
            0
        },
        cmd: if frame.len() >= 9 {
            be16(frame[7], frame[8])
        } else {
            0
        },
        payloads: if frame.len() > 9 {
            parse_fields_at(frame.skip(9), 0)
        } else {
            Seq::empty()
        },
    }
}

/// The transparent frame a validated frame parses to.
pub open spec fn parse_transparent_spec(frame: Seq<u8>) -> SpecTransparent {
    SpecTransparent {
        cmd: if frame.len() >= 9 {
            be16(frame[7], frame[8])
        } else {
            0
        },
        packet_id: Some(
            if frame.len() >= 7 {
                be16(frame[5], frame[6])
            } else {
                0int
            },
        ),
        payloads: if frame.len() > 9 {
            frame.skip(9)
        } else {
            Seq::empty()
        },
    }
}

/// The event one extracted frame gives rise to: a checksum check, the
/// reserved-command check, then either the transparent or the structured
/// parse.
pub open spec fn classify(frame: Seq<u8>) -> SpecEvent {
    if frame.len() < 5 {
        SpecEvent::Failure(DecodeError::FrameTooShort)
    } else if sum8(frame.skip(5)) != frame[4] {
        SpecEvent::Failure(DecodeError::CrcMismatch)
    } else {
        let cmd = if frame.len() >= 9 {
            be16(frame[7], frame[8])
        } else {
            0
        };
        if cmd == 0 || cmd == 0xffff {
            SpecEvent::Failure(DecodeError::InvalidCmd)
        } else if cmd == 0x0024 {
            SpecEvent::Transparent(parse_transparent_spec(frame))
        } else {
            SpecEvent::Success(parse_payload_spec(frame))
        }
    }
}

/// The position of the first 0xAA 0xAA pair, if any.
pub open spec fn find_preamble(s: Seq<u8>) -> Option<nat>
    decreases s.len(),
{
    if s.len() < 2 {
        None
    } else if s[0] == 0xaa && s[1] == 0xaa {
        Some(0nat)
    } else {
        match find_preamble(s.drop_first()) {
            Some(i) => Some((i + 1) as nat),
            None => None,
        }
    }
}

pub proof fn lemma_find_preamble_char(s: Seq<u8>)
    ensures
        match find_preamble(s) {
            Some(i) => i + 1 < s.len() && s[i as int] == 0xaa && s[i as int + 1] == 0xaa && forall|j: int|
                0 <= j < i ==> !(#[trigger] s[j] == 0xaa && s[j + 1] == 0xaa),
            None => forall|j: int|
                0 <= j && j + 1 < s.len() ==> !(#[trigger] s[j] == 0xaa && s[j + 1] == 0xaa),
        },
    decreases s.len(),
{
    if s.len() < 2 {
    } else if s[0] == 0xaa && s[1] == 0xaa {
    } else {
        lemma_find_preamble_char(s.drop_first());
        let d = s.drop_first();
        match find_preamble(d) {
            Some(i) => {
                assert forall|j: int| 0 <= j < i + 1 implies !(#[trigger] s[j] == 0xaa && s[j + 1]
                    == 0xaa) by {
                    if j > 0 {
                        assert(s[j] == d[j - 1] && s[j + 1] == d[j]);
                    }
                }
                assert(s[i as int + 1] == d[i as int] && s[i as int + 2] == d[i as int + 1]);
            },
            None => {
                assert forall|j: int| 0 <= j && j + 1 < s.len() implies !(#[trigger] s[j] == 0xaa
                    && s[j + 1] == 0xaa) by {
                    if j > 0 {
                        assert(s[j] == d[j - 1] && s[j + 1] == d[j]);
                    }
                }
            },
        }
    }
}

/// What one pass over an (already un-stuffed) accumulator yields: the events
/// emitted and the bytes retained for the next chunk.
pub open spec fn drain(buf: Seq<u8>) -> (Seq<SpecEvent>, Seq<u8>)
    decreases buf.len(),
{
    if buf.len() == 0 {
        (Seq::empty(), Seq::empty())
    } else if buf.len() < 9 {
        (seq![SpecEvent::Incomplete], buf)
    } else {
        match find_preamble(buf) {
            None => {
                if buf.last() == 0xaa {
                    (seq![SpecEvent::Incomplete], seq![0xaau8])
                } else {
                    (seq![SpecEvent::Failure(DecodeError::NoHeader)], Seq::empty())
                }
            },
            Some(s) => {
                let pl = if s + 3 < buf.len() {
                    be16(buf[s as int + 2], buf[s as int + 3])
                } else {
                    0
                };
                if buf.len() < s + pl + 4 {
                    (seq![SpecEvent::Incomplete], buf.skip(s as int))
                } else {
                    let frame = buf.subrange(s as int, s + pl + 4);
                    let rest = buf.skip(s + pl + 4);
                    let (evs, fin) = drain(rest);
                    (seq![classify(frame)] + evs, fin)
                }
            },
        }
    }
}

/// Parse binary data result.
pub struct ParseBinaryData {
    pub data: Vec<u8>,
    pub offset: usize,
}

/// Parse numeric data result.
pub struct ParseNumData {
    pub value: TTLVValue,
    pub offset: usize,
}

/// Parse struct data result.
pub struct ParseStructData {
    pub data: Vec<TTLVData>,
    pub offset: usize,
}

/// TTLV decoding utility: the per-channel accumulator for incoming bytes.
/// A single channel can share one instance; separate channels need separate
/// instances.
pub struct DecodeTools {
    stbuf: Vec<u8>,
    receive_data: Vec<u8>,
}

impl DecodeTools {
    /// The stored preamble pattern is the real one.
    pub closed spec fn wf(&self) -> bool {
        self.stbuf@ =~= seq![0xaau8, 0xaau8]
    }

    /// The bytes retained from earlier chunks, already un-stuffed.
    pub closed spec fn buffered(&self) -> Seq<u8> {
        self.receive_data@
    }

    pub fn new() -> (r: Self)
        ensures
            r.wf(),
            r.buffered() == Seq::<u8>::empty(),
    {
        let mut stbuf: Vec<u8> = Vec::new();
        stbuf.push(0xaa);
        stbuf.push(0xaa);
        proof {
            assert(stbuf@ =~= seq![0xaau8, 0xaau8]);
        }
        Self { stbuf, receive_data: Vec::new() }
    }

    /// Removes every 0x55 that follows an 0xAA, pairing the same 0xAA with
    /// the next byte again after each removal.
    pub fn splice_buffer(&self, bytes: &[u8]) -> (r: Vec<u8>)
        ensures
            r@ == unstuff(bytes@),
    {
        unstuff_bytes(bytes)
    }

    /// Computes the protocol checksum: the 8-bit wrapping sum of `data`.
    pub fn sum_calculation(&self, data: &[u8]) -> (r: u8)
        ensures
            r == sum8(data@),
    {
        wrap8_sum(data)
    }

    /// The first position where `pattern` occurs in `data`.
    fn find_subsequence(&self, data: &[u8], pattern: &[u8]) -> (r: Option<usize>)
        requires
            pattern@ =~= seq![0xaau8, 0xaau8],
        ensures
            match r {
                Some(i) => find_preamble(data@) == Some(i as nat),
                None => find_preamble(data@) is None,
            },
    {
        if pattern.len() > data.len() || data.len() < 2 {
            proof {
                lemma_find_preamble_char(data@);
            }
            return None;
        }
        let mut i: usize = 0;
        while i < data.len() - 1
            invariant
                data@.len() >= 2,
                i <= data@.len() - 1,
                pattern@ =~= seq![0xaau8, 0xaau8],
                forall|j: int| 0 <= j < i ==> !(#[trigger] data@[j] == 0xaa && data@[j + 1]
                    == 0xaa),
            decreases data.len() - i,
        {
            if data[i] == pattern[0] && data[i + 1] == pattern[1] {
                proof {
                    lemma_find_preamble_char(data@);
                    assert(data@[i as int] == 0xaa && data@[i as int + 1] == 0xaa);
                    match find_preamble(data@) {
                        Some(k) => {
                            if k < i {
                                assert(data@[k as int] == 0xaa && data@[k as int + 1] == 0xaa);
                                assert(false);
                            } else if k > i {
                                assert(!(data@[i as int] == 0xaa && data@[i as int + 1] == 0xaa));
                                assert(false);
                            }
                        },
                        None => {
                            assert(!(data@[i as int] == 0xaa && data@[i as int + 1] == 0xaa));
                            assert(false);
                        },
                    }
                }
                return Some(i);
            }
            i = i + 1;
        }
        proof {
            lemma_find_preamble_char(data@);
            match find_preamble(data@) {
                Some(k) => {
                    assert(data@[k as int] == 0xaa && data@[k as int + 1] == 0xaa);
                    assert(false);
                },
                None => {},
            }
        }
        None
    }

    /// Reads a two-byte big-endian value; zero when fewer than two bytes are
    /// given.
    fn read_byte_array_short(&self, data: &[u8]) -> (r: i32)
        ensures
            data@.len() >= 2 ==> r == be16(data@[0], data@[1]),
            data@.len() < 2 ==> r == 0,
            0 <= r <= 0xffff,
    {
        if data.len() < 2 {
            return 0;
        }
        let a = data[0];
        let b = data[1];
        let r = ((a as i32) << 8) | (b as i32);
        proof {
            assert(((a as i32) << 8) | (b as i32) == (a as i32) * 256 + (b as i32))
                by (bit_vector);
        }
        r
    }

    /// Reads up to eight bytes as a big-endian value into the bits of an
    /// `i64`.
    fn read_byte_array_long(&self, data: &[u8]) -> (r: i64)
        requires
            data@.len() <= 8,
        ensures
            r as u64 == be_val(data@),
    {
        let mut acc: u64 = 0;
        let mut i: usize = 0;
        proof {
            assert(data@.take(0) =~= Seq::<u8>::empty());
        }
        while i < data.len()
            invariant
                i <= data@.len() <= 8,
                acc == be_val(data@.take(i as int)),
                acc < pow256(i as nat),
            decreases data.len() - i,
        {
            let b = data[i];
            proof {
                assert(pow256((i + 1) as nat) == 256 * pow256(i as nat));
                lemma_pow256_mono((i + 1) as nat, 8);
                lemma_pow256_values();
                assert(acc * 256 + b < pow256((i + 1) as nat)) by (nonlinear_arith)
                    requires
                        acc < pow256(i as nat),
                        b < 256,
                        pow256((i + 1) as nat) == 256 * pow256(i as nat),
                ;
            }
            acc = acc * 256 + (b as u64);
            proof {
                assert(data@.take(i + 1).drop_last() =~= data@.take(i as int));
            }
            i = i + 1;
        }
        proof {
            assert(data@.take(data@.len() as int) =~= data@);
            assert(acc as i64 as u64 == acc) by (bit_vector);
        }
        acc as i64
    }

    /// Reads a four-byte big-endian value into the bits of an `i32`; zero
    /// when fewer than four bytes are given.
    fn read_byte_array_int(&self, data: &[u8]) -> (r: i32)
        ensures
            data@.len() >= 4 ==> r as u32 == be_val(data@.take(4)),
            data@.len() < 4 ==> r == 0,
    {
        if data.len() < 4 {
            return 0;
        }
        let mut acc: u32 = 0;
        let mut i: usize = 0;
        proof {
            assert(data@.take(0) =~= Seq::<u8>::empty());
        }
        while i < 4
            invariant
                i <= 4 <= data@.len(),
                acc == be_val(data@.take(i as int)),
                acc < pow256(i as nat),
            decreases 4 - i,
        {
            let b = data[i];
            proof {
                assert(pow256((i + 1) as nat) == 256 * pow256(i as nat));
                lemma_pow256_mono((i + 1) as nat, 4);
                lemma_pow256_values();
                assert(acc * 256 + b < pow256((i + 1) as nat)) by (nonlinear_arith)
                    requires
                        acc < pow256(i as nat),
                        b < 256,
                        pow256((i + 1) as nat) == 256 * pow256(i as nat),
                ;
            }
            acc = acc * 256 + (b as u32);
            proof {
                assert(data@.take(i + 1).drop_last() =~= data@.take(i as int));
            }
            i = i + 1;
        }
        proof {
            assert(acc as i32 as u32 == acc) by (bit_vector);
        }
        acc as i32
    }

    /// Parse binary data.
    pub fn parse_binary(&self, payload: &[u8], offset: usize) -> (r: Option<ParseBinaryData>)
        ensures
            match parse_bin_at(payload@, offset as int) {
                Some((b, c)) => r is Some && r->0.data@ == b && r->0.offset == offset + c,
                None => r is None,
            },
    {
        if offset >= payload.len() || offset + 1 >= payload.len() {
            return None;
        }
        let win = vstd::slice::slice_subrange(payload, offset, offset + 2);
        let ttlv_len_i = self.read_byte_array_short(win);
        proof {
            assert(win@[0] == payload@[offset as int]);
            assert(win@[1] == payload@[offset as int + 1]);
        }
        let ttlv_len = ttlv_len_i as usize;
        let start = offset + 2;
        if ttlv_len > 0 && ttlv_len <= payload.len() - start {
            let bytes = vstd::slice::slice_to_vec(
                vstd::slice::slice_subrange(payload, start, start + ttlv_len),
            );
            Some(ParseBinaryData { data: bytes, offset: start + ttlv_len })
        } else {
            None
        }
    }

    /// Parse enum value.
    pub fn parse_enum_value(&self, payload: &[u8], offset: usize) -> (r: Option<ParseNumData>)
        ensures
            match parse_num_at(payload@, offset as int) {
                Some((v, c)) => r is Some && r->0.value.deep() == v && r->0.offset == offset + c,
                None => r is None,
            },
    {
        if offset >= payload.len() {
            return None;
        }
        let lenbuf = payload[offset];
        proof {
            assert((lenbuf & 0xff) >> 7 == lenbuf / 128) by (bit_vector);
            assert((lenbuf >> 3) & 0x0f == (lenbuf / 8) % 16) by (bit_vector);
            assert(lenbuf & 0x07 == lenbuf % 8) by (bit_vector);
            assert(lenbuf / 128 > 0 <==> lenbuf >= 128);
        }
        let negative: u8 = (lenbuf & 0xff) >> 7;
        let amp: u8 = (lenbuf >> 3) & 0x0f;
        let tmp_len: u8 = (lenbuf & 0x07) + 1;
        let start = offset + 1;
        if tmp_len as usize > payload.len() - start {
            return None;
        }
        let buf = vstd::slice::slice_subrange(payload, start, start + tmp_len as usize);
        proof {
            assert(buf@ == payload@.subrange(start as int, start as int + tmp_len as int));
        }
        let lval = self.read_byte_array_long(buf);
        let mag = lval as u64;
        let final_value: i64 = if negative > 0 {
            if mag <= 0x8000_0000_0000_0000u64 {
                (-(mag as i128)) as i64
            } else {
                return None;
            }
        } else {
            if mag <= 0x7fff_ffff_ffff_ffffu64 {
                mag as i64
            } else {
                return None;
            }
        };
        let val = if amp > 0 {
            TTLVValue::Decimal(DoubleNeedValue { value: final_value, count: amp as usize })
        } else {
            TTLVValue::Integer(final_value)
        };
        Some(ParseNumData { value: val, offset: start + tmp_len as usize })
    }

    /// Parse struct data. The payload of one frame never exceeds the
    /// envelope's 16-bit length field.
    pub fn parse_struct(&self, payload: &[u8], offset: usize) -> (r: Option<ParseStructData>)
        requires
            payload@.len() <= 0xffff,
        ensures
            match parse_struct_at(payload@, offset as int) {
                Some((fs, c)) => r is Some && deep_fields(r->0.data@) == fs && r->0.offset
                    == offset + c,
                None => r is None,
            },
        decreases rem_after(payload@, offset as int), 3int,
    {
        if offset >= payload.len() || offset + 1 >= payload.len() {
            return None;
        }
        let win = vstd::slice::slice_subrange(payload, offset, offset + 2);
        let ele_num_i = self.read_byte_array_short(win);
        proof {
            assert(win@[0] == payload@[offset as int]);
            assert(win@[1] == payload@[offset as int + 1]);
        }
        let ele_num = ele_num_i as usize;
        let ghost start = offset as int + 2;
        let ghost total = parse_elems_at(payload@, start, ele_num as nat);
        let mut cur: usize = offset + 2;
        let mut remaining: usize = ele_num;
        let mut stc: Vec<TTLVData> = Vec::new();
        proof {
            assert(deep_fields(stc@) =~= Seq::<SpecField>::empty());
            assert(total.0 =~= deep_fields(stc@) + parse_elems_at(
                payload@,
                cur as int,
                remaining as nat,
            ).0);
        }
        while remaining > 0
            invariant
                payload@.len() <= 0xffff,
                offset + 2 <= cur <= payload@.len() + 2,
                remaining <= ele_num,
                start == offset as int + 2,
                offset + 1 < payload@.len(),
                total == parse_elems_at(payload@, start, ele_num as nat),
                total.0 == deep_fields(stc@) + parse_elems_at(
                    payload@,
                    cur as int,
                    remaining as nat,
                ).0,
                total.1 == (cur - start) + parse_elems_at(
                    payload@,
                    cur as int,
                    remaining as nat,
                ).1,
            ensures
                offset + 2 <= cur <= payload@.len() + 2,
                total.0 == deep_fields(stc@) + parse_elems_at(
                    payload@,
                    cur as int,
                    remaining as nat,
                ).0,
                total.1 == (cur - start) + parse_elems_at(
                    payload@,
                    cur as int,
                    remaining as nat,
                ).1,
                remaining == 0 || cur as int + 1 >= payload@.len(),
            decreases remaining,
        {
            if cur > payload.len() - 2 {
                break;
            }
            let ghost cur0 = cur as int;
            let ghost rem0 = remaining as nat;
            let win2 = vstd::slice::slice_subrange(payload, cur, cur + 2);
            let head = self.read_byte_array_short(win2);
            proof {
                assert(win2@[0] == payload@[cur0]);
                assert(win2@[1] == payload@[cur0 + 1]);
            }
            let ttlv_id = (head >> 3) & 0x1fff;
            let ttlv_type = head & 0x07;
            proof {
                assert((head >> 3) & 0x1fff == head / 8 && head & 0x07 == head % 8 && 0 <= head % 8
                    < 8) by (bit_vector)
                    requires
                        0 <= head <= 0xffff,
                ;
            }
            let body_start = cur + 2;
            let ghost body = parse_body_at(payload@, cur0 + 2, head as int / 8, head as int % 8);
            let ghost stc0 = stc@;
            if ttlv_type == 3 || ttlv_type == 5 {
                match self.parse_binary(payload, body_start) {
                    Some(p_obj) => {
                        let mut data = TTLVData::new(ttlv_id, ttlv_type, true);
                        data.value = TTLVValue::Binary(p_obj.data);
                        proof {
                            assert(body.0 == Some(data.deep()) && cur0 + 2 + body.1
                                == p_obj.offset);
                        }
                        stc.push(data);
                        cur = p_obj.offset;
                    },
                    None => {
                        proof {
                            assert(body.0 is None && body.1 == 2);
                        }
                        cur = body_start + 2;
                    },
                }
            } else if ttlv_type == 0 || ttlv_type == 1 {
                let mut data = TTLVData::new(ttlv_id, ttlv_type, true);
                data.value = TTLVValue::Boolean(ttlv_type == 1);
                proof {
                    assert(body.0 == Some(data.deep()) && body.1 == 0);
                }
                stc.push(data);
                cur = body_start;
            } else if ttlv_type == 2 {
                match self.parse_enum_value(payload, body_start) {
                    Some(pn) => {
                        let pn_offset = pn.offset;
                        let mut data = TTLVData::new(ttlv_id, ttlv_type, true);
                        data.value = pn.value;
                        proof {
                            assert(body.0 == Some(data.deep()) && cur0 + 2 + body.1 == pn_offset);
                        }
                        stc.push(data);
                        cur = pn_offset;
                    },
                    None => {
                        proof {
                            assert(body.0 is None && body.1 == 0);
                        }
                        cur = body_start;
                    },
                }
            } else if ttlv_type == 4 {
                match self.parse_struct(payload, body_start) {
                    Some(ps) => {
                        let ps_offset = ps.offset;
                        let mut data = TTLVData::new(ttlv_id, ttlv_type, true);
                        data.value = TTLVValue::Struct(ps.data);
                        proof {
                            lemma_struct_consumed(payload@, cur0 + 2);
                            assert(body.0 == Some(data.deep()) && cur0 + 2 + body.1 == ps_offset);
                        }
                        stc.push(data);
                        cur = ps_offset;
                    },
                    None => {
                        proof {
                            assert(body.0 is None && body.1 == 0);
                        }
                        cur = body_start;
                    },
                }
            } else {
                proof {
                    assert(body.0 is None && body.1 == 0);
                }
                cur = body_start;
            }
            proof {
                let stepped = parse_elems_at(payload@, cur0, rem0);
                let rest = parse_elems_at(payload@, cur0 + 2 + body.1, (rem0 - 1) as nat);
                assert(stepped.0 == (match body.0 {
                    Some(f) => seq![f] + rest.0,
                    None => rest.0,
                }) && stepped.1 == 2 + body.1 + rest.1);
                assert(cur as int == cur0 + 2 + body.1);
                match body.0 {
                    Some(f) => {
                        lemma_deep_fields_push(stc0, stc@.last());
                        assert(stc@ =~= stc0.push(stc@.last()));
                        assert(deep_fields(stc@) =~= deep_fields(stc0).push(f));
                        assert(deep_fields(stc0) + (seq![f] + rest.0) =~= deep_fields(stc0).push(
                            f,
                        ) + rest.0);
                    },
                    None => {},
                }
            }
            remaining = remaining - 1;
        }
        proof {
            assert(parse_elems_at(payload@, cur as int, remaining as nat).0
                =~= Seq::<SpecField>::empty());
            assert(total.0 + Seq::<SpecField>::empty() =~= total.0);
            assert(deep_fields(stc@) + Seq::<SpecField>::empty() =~= deep_fields(stc@));
        }
        Some(ParseStructData { data: stc, offset: cur })
    }

    /// Parse a validated frame's payload into a command model. A frame is at
    /// most the envelope around a payload whose length fits its 16-bit wire
    /// field.
    pub fn parse_payload(&self, data: &[u8]) -> (r: TtlvCommandModel)
        requires
            data@.len() <= 0x1_0004,
        ensures
            r.deep() == parse_payload_spec(data@),
    {
        let mut obj = TtlvCommandModel::new(0, 0);
        let packet_id: i32 = if data.len() >= 7 {
            let win = vstd::slice::slice_subrange(data, 5, 7);
            let v = self.read_byte_array_short(win);
            proof {
                assert(win@[0] == data@[5] && win@[1] == data@[6]);
            }
            v
        } else {
            0
        };
        let cmd: i32 = if data.len() >= 9 {
            let win = vstd::slice::slice_subrange(data, 7, 9);
            let v = self.read_byte_array_short(win);
            proof {
                assert(win@[0] == data@[7] && win@[1] == data@[8]);
            }
            v
        } else {
            0
        };
        obj.set_packet_id(packet_id);
        obj.set_cmd(cmd);
        if data.len() <= 9 {
            proof {
                if data@.len() == 9 {
                    assert(data@.skip(9) =~= Seq::<u8>::empty());
                    assert(parse_fields_at(data@.skip(9), 0) =~= Seq::<SpecField>::empty());
                }
                assert(deep_fields(obj.payloads@) =~= Seq::<SpecField>::empty());
            }
            return obj;
        }
        let payload = vstd::slice::slice_subrange(data, 9, data.len());
        let ghost p = payload@;
        let mut payload_data: Vec<TTLVData> = Vec::new();
        let mut offset: usize = 0;
        proof {
            assert(deep_fields(payload_data@) =~= Seq::<SpecField>::empty());
            assert(parse_fields_at(p, 0) =~= deep_fields(payload_data@) + parse_fields_at(p, 0));
        }
        while offset < payload.len()
            invariant
                p == payload@,
                p.len() <= 0xffff,
                offset <= p.len() + 2,
                parse_fields_at(p, 0) == deep_fields(payload_data@) + parse_fields_at(
                    p,
                    offset as int,
                ),
            ensures
                parse_fields_at(p, offset as int) =~= Seq::<SpecField>::empty(),
                parse_fields_at(p, 0) == deep_fields(payload_data@) + parse_fields_at(
                    p,
                    offset as int,
                ),
            decreases p.len() + 2 - offset,
        {
            if offset + 1 >= payload.len() {
                break;
            }
            let ghost cur0 = offset as int;
            let win2 = vstd::slice::slice_subrange(payload, offset, offset + 2);
            let head = self.read_byte_array_short(win2);
            proof {
                assert(win2@[0] == p[cur0]);
                assert(win2@[1] == p[cur0 + 1]);
            }
            let ttlv_id = (head >> 3) & 0x1fff;
            let ttlv_type = head & 0x07;
            proof {
                assert((head >> 3) & 0x1fff == head / 8 && head & 0x07 == head % 8 && 0 <= head % 8
                    < 8) by (bit_vector)
                    requires
                        0 <= head <= 0xffff,
                ;
            }
            let body_start = offset + 2;
            let ghost body = parse_body_at(p, cur0 + 2, head as int / 8, head as int % 8);
            let ghost acc0 = payload_data@;
            if ttlv_type == 3 || ttlv_type == 5 {
                match self.parse_binary(payload, body_start) {
                    Some(p_obj) => {
                        let mut data2 = TTLVData::new(ttlv_id, ttlv_type, true);
                        data2.value = TTLVValue::Binary(p_obj.data);
                        proof {
                            assert(body.0 == Some(data2.deep()) && cur0 + 2 + body.1
                                == p_obj.offset);
                        }
                        payload_data.push(data2);
                        offset = p_obj.offset;
                    },
                    None => {
                        proof {
                            assert(body.0 is None && body.1 == 2);
                        }
                        offset = body_start + 2;
                    },
                }
            } else if ttlv_type == 0 || ttlv_type == 1 {
                let mut data2 = TTLVData::new(ttlv_id, ttlv_type, true);
                data2.value = TTLVValue::Boolean(ttlv_type == 1);
                proof {
                    assert(body.0 == Some(data2.deep()) && body.1 == 0);
                }
                payload_data.push(data2);
                offset = body_start;
            } else if ttlv_type == 2 {
                match self.parse_enum_value(payload, body_start) {
                    Some(pn) => {
                        let pn_offset = pn.offset;
                        let mut data2 = TTLVData::new(ttlv_id, ttlv_type, true);
                        data2.value = pn.value;
                        proof {
                            assert(body.0 == Some(data2.deep()) && cur0 + 2 + body.1 == pn_offset);
                        }
                        payload_data.push(data2);
                        offset = pn_offset;
                    },
                    None => {
                        proof {
                            assert(body.0 is None && body.1 == 0);
                        }
                        offset = body_start;
                    },
                }
            } else if ttlv_type == 4 {
                match self.parse_struct(payload, body_start) {
                    Some(ps) => {
                        let ps_offset = ps.offset;
                        let mut data2 = TTLVData::new(ttlv_id, ttlv_type, true);
                        data2.value = TTLVValue::Struct(ps.data);
                        proof {
                            lemma_struct_consumed(p, cur0 + 2);
                            assert(body.0 == Some(data2.deep()) && cur0 + 2 + body.1 == ps_offset);
                        }
                        payload_data.push(data2);
                        offset = ps_offset;
                    },
                    None => {
                        proof {
                            assert(body.0 is None && body.1 == 0);
                        }
                        offset = body_start;
                    },
                }
            } else {
                proof {
                    assert(body.0 is None && body.1 == 0);
                }
                offset = body_start;
            }
            proof {
                assert(parse_fields_at(p, cur0) == (match body.0 {
                    Some(f) => seq![f] + parse_fields_at(p, cur0 + 2 + body.1),
                    None => parse_fields_at(p, cur0 + 2 + body.1),
                }));
                assert(offset as int == cur0 + 2 + body.1);
                match body.0 {
                    Some(f) => {
                        lemma_deep_fields_push(acc0, payload_data@.last());
                        assert(payload_data@ =~= acc0.push(payload_data@.last()));
                        assert(deep_fields(payload_data@) =~= deep_fields(acc0).push(f));
                        assert(deep_fields(acc0) + (seq![f] + parse_fields_at(
                            p,
                            offset as int,
                        )) =~= deep_fields(acc0).push(f) + parse_fields_at(p, offset as int));
                    },
                    None => {},
                }
            }
        }
        obj.payloads = payload_data;
        proof {
            assert(parse_fields_at(p, 0) + Seq::<SpecField>::empty() =~= parse_fields_at(p, 0));
            assert(deep_fields(obj.payloads@) + Seq::<SpecField>::empty() =~= deep_fields(
                obj.payloads@,
            ));
        }
        obj
    }

    /// Parse transparent payload.
    pub fn parse_transparent_payload(&self, data: &[u8]) -> (r: TtlvTransparentModel)
        ensures
            r.deep() == parse_transparent_spec(data@),
    {
        let mut model = TtlvTransparentModel::new(0);
        let packet_id: i32 = if data.len() >= 7 {
            let win = vstd::slice::slice_subrange(data, 5, 7);
            let v = self.read_byte_array_short(win);
            proof {
                assert(win@[0] == data@[5] && win@[1] == data@[6]);
            }
            v
        } else {
            0
        };
        let cmd: i32 = if data.len() >= 9 {
            let win = vstd::slice::slice_subrange(data, 7, 9);
            let v = self.read_byte_array_short(win);
            proof {
                assert(win@[0] == data@[7] && win@[1] == data@[8]);
            }
            v
        } else {
            0
        };
        model.packet_id = Some(packet_id);
        model.cmd = cmd as u16;
        if data.len() > 9 {
            model.payloads = vstd::slice::slice_to_vec(
                vstd::slice::slice_subrange(data, 9, data.len()),
            );
            proof {
                assert(model.payloads@ == data@.skip(9));
            }
        } else {
            proof {
                assert(model.payloads@ =~= Seq::<u8>::empty());
            }
        }
        model
    }

    /// Check the frame checksum and the command word, then parse the frame.
    fn crc_security(&self, data: &[u8]) -> (r: Result<DecodeResult, DecodeError>)
        requires
            data@.len() <= 0x1_0004,
        ensures
            match r {
                Ok(ev) => ev.deep() == classify(data@) && !(ev is Incomplete) && !(ev is Error),
                Err(e) => SpecEvent::Failure(e) == classify(data@),
            },
    {
        if data.len() < 5 {
            return Err(DecodeError::FrameTooShort);
        }
        let crc_buf = vstd::slice::slice_subrange(data, 5, data.len());
        let n_xor = self.sum_calculation(crc_buf);
        let old_xor = data[4];
        if n_xor != old_xor {
            return Err(DecodeError::CrcMismatch);
        }
        let cmd: i32 = if data.len() >= 9 {
            let win = vstd::slice::slice_subrange(data, 7, 9);
            let v = self.read_byte_array_short(win);
            proof {
                assert(win@[0] == data@[7] && win@[1] == data@[8]);
            }
            v
        } else {
            0
        };
        if cmd == 0 || cmd == 0xffff {
            return Err(DecodeError::InvalidCmd);
        }
        if cmd == 0x0024 {
            Ok(DecodeResult::Transparent(self.parse_transparent_payload(data)))
        } else {
            Ok(DecodeResult::Success(self.parse_payload(data)))
        }
    }

    /// Feed one incoming chunk: appends it to the accumulator, un-stuffs,
    /// then repeatedly locates, validates and parses frames, returning one
    /// event per outcome.
    pub fn packet_slice(&mut self, data: &[u8]) -> (results: Vec<DecodeResult>)
        requires
            old(self).wf(),
        ensures
            final(self).wf(),
            events_deep(results@) == drain(unstuff(old(self).buffered() + data@)).0,
            final(self).buffered() == drain(unstuff(old(self).buffered() + data@)).1,
    {
        let mut combined: Vec<u8> = Vec::new();
        append_slice(&mut combined, self.receive_data.as_slice());
        append_slice(&mut combined, data);
        proof {
            assert(combined@ =~= old(self).buffered() + data@);
        }
        let spliced = self.splice_buffer(combined.as_slice());
        self.receive_data = spliced;
        let ghost u0 = unstuff(old(self).buffered() + data@);
        let mut results: Vec<DecodeResult> = Vec::new();
        proof {
            assert(events_deep(results@) =~= Seq::<SpecEvent>::empty());
            assert(drain(u0).0 =~= events_deep(results@) + drain(self.buffered()).0);
        }
        while self.receive_data.len() > 0
            invariant
                self.wf(),
                u0 == unstuff(old(self).buffered() + data@),
                drain(u0).0 == events_deep(results@) + drain(self.buffered()).0,
                drain(u0).1 == drain(self.buffered()).1,
            decreases self.receive_data.len(),
        {
            let ghost cur = self.buffered();
            let ghost res0 = results@;
            if self.receive_data.len() < 9 {
                results.push(DecodeResult::Incomplete);
                proof {
                    lemma_events_push(res0, DecodeResult::Incomplete);
                    assert(drain(cur) == (seq![SpecEvent::Incomplete], cur));
                    assert(events_deep(res0) + seq![SpecEvent::Incomplete] =~= events_deep(
                        results@,
                    ));
                }
                return results;
            }
            let found = self.find_subsequence(
                self.receive_data.as_slice(),
                self.stbuf.as_slice(),
            );
            match found {
                Some(start_index) => {
                    proof {
                        lemma_find_preamble_char(cur);
                    }
                    let payload_len: usize = if self.receive_data.len() - start_index > 3 {
                        let win = vstd::slice::slice_subrange(
                            self.receive_data.as_slice(),
                            start_index + 2,
                            start_index + 4,
                        );
                        let v = self.read_byte_array_short(win);
                        proof {
                            assert(win@[0] == cur[start_index as int + 2]);
                            assert(win@[1] == cur[start_index as int + 3]);
                        }
                        v as usize
                    } else {
                        0
                    };
                    if self.receive_data.len() - start_index < payload_len + 4 {
                        let rest = vstd::slice::slice_to_vec(
                            vstd::slice::slice_subrange(
                                self.receive_data.as_slice(),
                                start_index,
                                self.receive_data.len(),
                            ),
                        );
                        self.receive_data = rest;
                        results.push(DecodeResult::Incomplete);
                        proof {
                            lemma_events_push(res0, DecodeResult::Incomplete);
                            assert(drain(cur) == (seq![SpecEvent::Incomplete], cur.skip(
                                start_index as int,
                            )));
                            assert(events_deep(res0) + seq![SpecEvent::Incomplete]
                                =~= events_deep(results@));
                        }
                        return results;
                    }
                    let frame_end = start_index + payload_len + 4;
                    let n_buf_copy = vstd::slice::slice_to_vec(
                        vstd::slice::slice_subrange(
                            self.receive_data.as_slice(),
                            start_index,
                            frame_end,
                        ),
                    );
                    let rest = vstd::slice::slice_to_vec(
                        vstd::slice::slice_subrange(
                            self.receive_data.as_slice(),
                            frame_end,
                            self.receive_data.len(),
                        ),
                    );
                    self.receive_data = rest;
                    let event = match self.crc_security(n_buf_copy.as_slice()) {
                        Ok(result) => result,
                        Err(e) => DecodeResult::Error(e),
                    };
                    proof {
                        assert(event.deep() == classify(cur.subrange(
                            start_index as int,
                            start_index + payload_len + 4,
                        )));
                    }
                    results.push(event);
                    proof {
                        lemma_events_push(res0, event);
                        let frame = cur.subrange(start_index as int, start_index + payload_len
                            + 4);
                        let stepped = drain(cur);
                        assert(stepped.0 == seq![classify(frame)] + drain(self.buffered()).0
                            && stepped.1 == drain(self.buffered()).1);
                        assert(events_deep(res0) + (seq![classify(frame)] + drain(
                            self.buffered(),
                        ).0) =~= events_deep(res0).push(event.deep()) + drain(
                            self.buffered(),
                        ).0);
                    }
                },
                None => {
                    let last_idx = self.receive_data.len() - 1;
                    let last = self.receive_data[last_idx];
                    if last == 0xaa {
                        let mut keep: Vec<u8> = Vec::new();
                        keep.push(0xaa);
                        self.receive_data = keep;
                        results.push(DecodeResult::Incomplete);
                        proof {
                            lemma_events_push(res0, DecodeResult::Incomplete);
                            assert(self.buffered() =~= seq![0xaau8]);
                            assert(drain(cur) == (seq![SpecEvent::Incomplete], seq![0xaau8]));
                            assert(events_deep(res0) + seq![SpecEvent::Incomplete]
                                =~= events_deep(results@));
                        }
                        return results;
                    } else {
                        self.receive_data = Vec::new();
                        results.push(DecodeResult::Error(DecodeError::NoHeader));
                        proof {
                            lemma_events_push(res0, DecodeResult::Error(DecodeError::NoHeader));
                            assert(drain(cur) == (
                                seq![SpecEvent::Failure(DecodeError::NoHeader)],
                                Seq::<u8>::empty(),
                            ));
                            assert(self.buffered() =~= Seq::<u8>::empty());
                            assert(events_deep(res0) + seq![
                                SpecEvent::Failure(DecodeError::NoHeader),
                            ] =~= events_deep(results@));
                            assert(drain(self.buffered()) == (
                                Seq::<SpecEvent>::empty(),
                                Seq::<u8>::empty(),
                            ));
                            assert(events_deep(results@) + Seq::<SpecEvent>::empty()
                                =~= events_deep(results@));
                        }
                        return results;
                    }
                },
            }
        }
        proof {
            assert(self.buffered() =~= Seq::<u8>::empty());
            assert(drain(self.buffered()) == (Seq::<SpecEvent>::empty(), Seq::<u8>::empty()));
            assert(events_deep(results@) + Seq::<SpecEvent>::empty() =~= events_deep(results@));
        }
        results
    }
}

proof fn lemma_events_push(s: Seq<DecodeResult>, e: DecodeResult)
    ensures
        events_deep(s.push(e)) == events_deep(s).push(e.deep()),
{
    assert(events_deep(s.push(e)) =~= events_deep(s).push(e.deep()));
}

/// Appends all of `src` to `dst`.
fn append_slice(dst: &mut Vec<u8>, src: &[u8])
    ensures
        final(dst)@ == old(dst)@ + src@,
{
    let mut i: usize = 0;
    while i < src.len()
        invariant
            i <= src.len(),
            dst@ =~= old(dst)@ + src@.take(i as int),
        decreases src.len() - i,
    {
        dst.push(src[i]);
        proof {
            assert(old(dst)@ + src@.take(i + 1) =~= (old(dst)@ + src@.take(i as int)).push(
                src@[i as int],
            ));
        }
        i = i + 1;
    }
    proof {
        assert(src@.take(src@.len() as int) =~= src@);
    }
}

} // verus!
