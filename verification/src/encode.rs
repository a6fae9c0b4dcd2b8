//! TTLV encoding: serializes a command model into the wire envelope,
//! including the checksum, the serial packet-id generator and the
//! byte-stuffing pass.

use vstd::prelude::*;

use vstd::string::StringSliceAdditionalSpecFns;
use vstd::utf8::encode_utf8;

use crate::model::{
    all_digits, dec_str_ok, dec_str_value, deep_fields, digits_val, lemma_deep_fields_len,
    valid_field, valid_fields, valid_value, EncodeResult, SpecField, SpecValue, TTLVData,
    TTLVValue, TtlvCommandModel, TtlvTransparentModel,
};
use crate::wire::{
    be_val, byte_len, lemma_byte_len_u64, lemma_min_be_val, min_be, stuff, stuff_bytes, sum8,
    wrap8_sum,
};

verus! {

/// The magnitude of an `i64`, as a mathematical natural number.
pub open spec fn abs_i64(v: i64) -> nat {
    if v >= 0 {
        v as nat
    } else {
        (-(v as int)) as nat
    }
}

/// The wire form of a numeric value: one descriptor byte carrying the sign
/// bit, the decimal exponent and the magnitude width, then the magnitude in
/// minimal big-endian form.
pub open spec fn enc_num(value: i64, count: nat) -> Seq<u8> {
    let neg: int = if value < 0 {
        128
    } else {
        0
    };
    let d = (neg + count * 8 + (byte_len(abs_i64(value)) - 1)) as u8;
    seq![d] + min_be(abs_i64(value))
}

/// The two-byte big-endian form of a value in `[0, 0xffff]`.
pub open spec fn two_be(v: int) -> Seq<u8> {
    seq![(v / 256) as u8, (v % 256) as u8]
}

/// The wire header of a TTLV field: id in the upper 13 bits, type in the
/// lower 3.
pub open spec fn enc_header(id: int, type_id: int) -> Seq<u8> {
    two_be(id * 8 + type_id)
}

/// The wire form of a field's value body (what follows the header).
pub open spec fn enc_value(v: SpecValue) -> Seq<u8>
    decreases v,
{
    match v {
        SpecValue::Absent => Seq::empty(),
        SpecValue::Boolean(_) => Seq::empty(),
        SpecValue::Text(s) => enc_num(dec_str_value(encode_utf8(s)) as i64, 0),
        SpecValue::Integer(i) => enc_num(i, 0),
        SpecValue::Decimal { value, count } => enc_num(value, count),
        SpecValue::Binary(b) => two_be(b.len() as int) + b,
        SpecValue::Struct(fields) => two_be(fields.len() as int) + enc_children(fields),
    }
}

/// The wire form of one struct element: fields that carry no value are
/// skipped entirely.
pub open spec fn enc_child(f: SpecField) -> Seq<u8>
    decreases f,
{
    if !f.ttlv {
        Seq::empty()
    } else {
        enc_header(f.id, f.type_id) + enc_value(f.value)
    }
}

pub open spec fn enc_children(fields: Seq<SpecField>) -> Seq<u8>
    decreases fields,
{
    if fields.len() == 0 {
        Seq::empty()
    } else {
        enc_child(fields[0]) + enc_children(fields.drop_first())
    }
}

/// The wire form of one top-level field: fields that carry no value encode
/// as their bare two-byte id.
pub open spec fn enc_field(f: SpecField) -> Seq<u8>
    decreases f,
{
    if !f.ttlv {
        two_be(f.id)
    } else {
        enc_header(f.id, f.type_id) + enc_value(f.value)
    }
}

pub open spec fn enc_fields(fields: Seq<SpecField>) -> Seq<u8>
    decreases fields,
{
    if fields.len() == 0 {
        Seq::empty()
    } else {
        enc_field(fields[0]) + enc_fields(fields.drop_first())
    }
}

/// The payload of a read command: only the two-byte id of each field.
pub open spec fn enc_read_fields(fields: Seq<SpecField>) -> Seq<u8>
    decreases fields,
{
    if fields.len() == 0 {
        Seq::empty()
    } else {
        two_be(fields[0].id) + enc_read_fields(fields.drop_first())
    }
}

/// The full un-stuffed frame envelope around an already-encoded payload.
pub open spec fn envelope(cmd: u16, packet_id: u16, payload: Seq<u8>) -> Seq<u8> {
    let tail = two_be(packet_id as int) + two_be(cmd as int) + payload;
    seq![0xaau8, 0xaau8] + two_be(payload.len() as int + 5) + seq![sum8(tail)] + tail
}

/// The payload bytes the encoder chooses for a command model: the read
/// command 0x0011 takes the id-only form, every other command the full TTLV
/// form.
pub open spec fn payload_of(model: TtlvCommandModel) -> Seq<u8> {
    if model.cmd == 0x0011 {
        enc_read_fields(deep_fields(model.payloads@))
    } else {
        enc_fields(deep_fields(model.payloads@))
    }
}

/// The lookup key of an emitted frame.
pub open spec fn cmd_key_of(cmd: u16, packet_id: u16) -> u32 {
    (cmd * 0x10000 + packet_id) as u32
}

/// The next value of the serial packet-id counter: increments, and restarts
/// at 1000 whenever the increment leaves `[1000, 0xfffe]`.
pub open spec fn next_serial(p: u16) -> u16 {
    if p + 1 < 1000 || p + 1 >= 0xffff {
        1000u16
    } else {
        (p + 1) as u16
    }
}

pub proof fn lemma_enc_fields_concat(a: Seq<SpecField>, b: Seq<SpecField>)
    ensures
        enc_fields(a + b) == enc_fields(a) + enc_fields(b),
    decreases a,
{
    if a.len() == 0 {
        assert(a + b =~= b);
        assert(enc_fields(a) + enc_fields(b) =~= enc_fields(b));
    } else {
        lemma_enc_fields_concat(a.drop_first(), b);
        assert((a + b).drop_first() =~= a.drop_first() + b);
        assert(enc_field((a + b)[0]) + (enc_fields(a.drop_first()) + enc_fields(b)) =~= (enc_field(
            a[0],
        ) + enc_fields(a.drop_first())) + enc_fields(b));
    }
}

pub proof fn lemma_enc_children_concat(a: Seq<SpecField>, b: Seq<SpecField>)
    ensures
        enc_children(a + b) == enc_children(a) + enc_children(b),
    decreases a,
{
    if a.len() == 0 {
        assert(a + b =~= b);
        assert(enc_children(a) + enc_children(b) =~= enc_children(b));
    } else {
        lemma_enc_children_concat(a.drop_first(), b);
        assert((a + b).drop_first() =~= a.drop_first() + b);
        assert(enc_child((a + b)[0]) + (enc_children(a.drop_first()) + enc_children(b))
            =~= (enc_child(a[0]) + enc_children(a.drop_first())) + enc_children(b));
    }
}

pub proof fn lemma_enc_read_fields_concat(a: Seq<SpecField>, b: Seq<SpecField>)
    ensures
        enc_read_fields(a + b) == enc_read_fields(a) + enc_read_fields(b),
    decreases a,
{
    if a.len() == 0 {
        assert(a + b =~= b);
        assert(enc_read_fields(a) + enc_read_fields(b) =~= enc_read_fields(b));
    } else {
        lemma_enc_read_fields_concat(a.drop_first(), b);
        assert((a + b).drop_first() =~= a.drop_first() + b);
        assert(two_be((a + b)[0].id) + (enc_read_fields(a.drop_first()) + enc_read_fields(b))
            =~= (two_be(a[0].id) + enc_read_fields(a.drop_first())) + enc_read_fields(b));
    }
}

pub proof fn lemma_enc_fields_singleton(f: SpecField)
    ensures
        enc_fields(seq![f]) == enc_field(f),
{
    assert(seq![f].drop_first() =~= Seq::<SpecField>::empty());
    assert(enc_field(f) + enc_fields(Seq::<SpecField>::empty()) =~= enc_field(f));
}

pub proof fn lemma_enc_children_singleton(f: SpecField)
    ensures
        enc_children(seq![f]) == enc_child(f),
{
    assert(seq![f].drop_first() =~= Seq::<SpecField>::empty());
    assert(enc_child(f) + enc_children(Seq::<SpecField>::empty()) =~= enc_child(f));
}

pub proof fn lemma_enc_read_fields_singleton(f: SpecField)
    ensures
        enc_read_fields(seq![f]) == two_be(f.id),
{
    assert(seq![f].drop_first() =~= Seq::<SpecField>::empty());
    assert(two_be(f.id) + enc_read_fields(Seq::<SpecField>::empty()) =~= two_be(f.id));
}

pub proof fn lemma_valid_fields_index(fields: Seq<SpecField>)
    requires
        valid_fields(fields),
    ensures
        forall|i: int| 0 <= i < fields.len() ==> valid_field(#[trigger] fields[i]),
    decreases fields,
{
    if fields.len() > 0 {
        lemma_valid_fields_index(fields.drop_first());
        assert forall|i: int| 0 <= i < fields.len() implies valid_field(#[trigger] fields[i]) by {
            if i > 0 {
                assert(fields[i] == fields.drop_first()[i - 1]);
            }
        }
    }
}

/// Appends all of `src` to `dst`.
pub(crate) fn push_all(dst: &mut Vec<u8>, src: &Vec<u8>)
    ensures
        final(dst)@ == old(dst)@ + src@,
{
    let mut i: usize = 0;
    while i < src.len()
        invariant
            i <= src.len(),
            dst@ =~= old(dst)@ + src@.take(i as int),
        decreases src.len() - i,
    {
        dst.push(src[i]);
        proof {
            assert(old(dst)@ + src@.take(i + 1) =~= (old(dst)@ + src@.take(i as int)).push(
                src@[i as int],
            ));
        }
        i = i + 1;
    }
    proof {
        assert(src@.take(src@.len() as int) =~= src@);
    }
}

/// The minimal big-endian byte form of an unsigned magnitude.
fn min_be_bytes(mag: u64) -> (r: Vec<u8>)
    ensures
        r@ == min_be(mag as nat),
        1 <= r@.len() <= 8,
    decreases mag,
{
    proof {
        lemma_min_be_val(mag as nat);
        lemma_byte_len_u64(mag as nat);
    }
    if mag < 256 {
        let mut v: Vec<u8> = Vec::new();
        v.push(mag as u8);
        proof {
            assert(v@ =~= seq![mag as u8]);
        }
        v
    } else {
        let mut v = min_be_bytes(mag / 256);
        v.push((mag % 256) as u8);
        proof {
            assert((mag / 256) as nat == (mag as nat) / 256);
            assert((mag % 256) as nat == (mag as nat) % 256);
            assert(v@ =~= min_be((mag as nat) / 256).push(((mag as nat) % 256) as u8));
        }
        v
    }
}

/// The descriptor byte and magnitude bytes of a numeric value.
fn num_bytes(value: i64, count: usize) -> (r: Vec<u8>)
    requires
        count <= 15,
    ensures
        r@ == enc_num(value, count as nat),
{
    let neg: bool = value < 0;
    let mag: u64 = if value >= 0 {
        value as u64
    } else {
        (-(value as i128)) as u64
    };
    proof {
        assert(mag == abs_i64(value));
        lemma_min_be_val(mag as nat);
        lemma_byte_len_u64(mag as nat);
    }
    let mb = min_be_bytes(mag);
    let width: u8 = (mb.len() - 1) as u8;
    let base: u8 = if neg {
        128
    } else {
        0
    };
    let descriptor: u8 = base + (count as u8) * 8 + width;
    let mut r: Vec<u8> = Vec::new();
    r.push(descriptor);
    push_all(&mut r, &mb);
    proof {
        assert(r@ =~= seq![descriptor] + mb@);
    }
    r
}

pub proof fn lemma_digits_val_nonneg(s: Seq<u8>)
    requires
        all_digits(s),
    ensures
        digits_val(s) >= 0,
    decreases s.len(),
{
    if s.len() > 0 {
        assert(all_digits(s.drop_last())) by {
            assert(forall|i: int| 0 <= i < s.len() - 1 ==> s.drop_last()[i] == s[i]);
        }
        lemma_digits_val_nonneg(s.drop_last());
        assert(48 <= s[s.len() - 1] <= 57);
    }
}

/// A digit run's value never falls below the value of any of its prefixes.
pub proof fn lemma_digits_val_prefix(s: Seq<u8>, i: int)
    requires
        all_digits(s),
        0 <= i <= s.len(),
    ensures
        digits_val(s.take(i)) <= digits_val(s),
    decreases s.len() - i,
{
    assert(all_digits(s.take(i))) by {
        assert(forall|j: int| 0 <= j < i ==> s.take(i)[j] == s[j]);
    }
    if i < s.len() {
        lemma_digits_val_prefix(s, i + 1);
        assert(s.take(i + 1).drop_last() =~= s.take(i));
        assert(48 <= s[i] <= 57);
        lemma_digits_val_nonneg(s.take(i));
        assert(digits_val(s.take(i + 1)) == digits_val(s.take(i)) * 10 + (s[i] - 48));
        assert(digits_val(s.take(i)) * 10 >= digits_val(s.take(i))) by (nonlinear_arith)
            requires
                digits_val(s.take(i)) >= 0,
        ;
    } else {
        assert(s.take(i) =~= s);
    }
}

/// Parses a decimal integer string given as bytes: an optional leading minus
/// sign, then digits. Yields the value exactly when the string is well
/// formed and the value fits a signed 64-bit integer.
fn parse_i64_bytes(b: &[u8]) -> (r: Option<i64>)
    ensures
        r matches Some(v) ==> dec_str_ok(b@) && v == dec_str_value(b@),
        dec_str_ok(b@) && i64::MIN <= dec_str_value(b@) <= i64::MAX ==> r is Some,
{
    if b.len() == 0 {
        return None;
    }
    let neg = b[0] == 45;  // the ASCII minus sign
    let start: usize = if neg {
        1
    } else {
        0
    };
    if b.len() == start {
        return None;
    }
    let ghost d = b@.skip(start as int);
    proof {
        if !neg {
            assert(b@.skip(0) =~= b@);
        }
    }
    let mut acc: i64 = 0;
    let mut i: usize = start;
    proof {
        assert(d.take(0) =~= Seq::<u8>::empty());
    }
    while i < b.len()
        invariant
            start <= i <= b@.len(),
            start <= 1,
            b@.len() > start,
            (b@[0] == 45) == (start == 1),
            d == b@.skip(start as int),
            acc <= 0,
            acc == -digits_val(d.take(i - start)),
            all_digits(d.take(i - start)),
        decreases b@.len() - i,
    {
        let c = b[i];
        if c < 48 || c > 57 {
            proof {
                if start == 0 {
                    assert(b@.skip(0) =~= b@);
                }
                assert(d[i - start] == b@[i as int]);
                assert(!all_digits(d));
            }
            return None;
        }
        let digit = (c - 48) as i64;
        let ghost k = i - start;
        let stepped = match acc.checked_mul(10) {
            Some(x) => x.checked_sub(digit),
            None => None,
        };
        proof {
            assert(d.take(k + 1).drop_last() =~= d.take(k as int));
            assert(d.take(k + 1).last() == d[k as int] == c);
            assert(forall|j: int| 0 <= j < k + 1 ==> d.take(k + 1)[j] == d[j]);
            assert(digits_val(d.take(k + 1)) == digits_val(d.take(k as int)) * 10 + (c - 48));
        }
        acc = match stepped {
            Some(y) => y,
            None => {
                proof {
                    if start == 0 {
                        assert(b@.skip(0) =~= b@);
                    }
                    if dec_str_ok(b@) {
                        assert(all_digits(d));
                        lemma_digits_val_prefix(d, k + 1);
                        assert(digits_val(d.take(k + 1)) > i64::MAX);
                        assert(digits_val(d) >= digits_val(d.take(k + 1)));
                        if start == 1 {
                            assert(b@[0] == 45);
                            assert(dec_str_value(b@) == -digits_val(d));
                            assert(dec_str_value(b@) < i64::MIN);
                        } else {
                            assert(!(b@[0] == 45));
                            assert(dec_str_value(b@) == digits_val(d));
                            assert(dec_str_value(b@) > i64::MAX);
                        }
                    }
                }
                return None;
            },
        };
        proof {
            assert(acc == -digits_val(d.take(k + 1)));
        }
        i = i + 1;
    }
    proof {
        assert(d.take(d.len() as int) =~= d);
    }
    if neg {
        Some(acc)
    } else {
        if acc == i64::MIN {
            proof {
                assert(digits_val(d) == 0x8000_0000_0000_0000);
                assert(dec_str_value(b@) > i64::MAX);
            }
            None
        } else {
            Some(-acc)
        }
    }
}

/// Fixed-width big-endian byte form of an unsigned value.
fn be_bytes_w(u: u64, w: usize) -> (r: Vec<u8>)
    requires
        w <= 8,
        u < crate::wire::pow256(w as nat),
    ensures
        r@.len() == w,
        be_val(r@) == u,
    decreases w,
{
    if w == 0 {
        let v: Vec<u8> = Vec::new();
        proof {
            assert(v@ =~= Seq::<u8>::empty());
        }
        v
    } else {
        proof {
            assert(crate::wire::pow256(w as nat) == 256 * crate::wire::pow256((w - 1) as nat));
            assert(u / 256 < crate::wire::pow256((w - 1) as nat)) by (nonlinear_arith)
                requires
                    u < 256 * crate::wire::pow256((w - 1) as nat),
            ;
        }
        let mut v = be_bytes_w(u / 256, w - 1);
        let ghost before = v@;
        v.push((u % 256) as u8);
        proof {
            assert(v@.drop_last() =~= before);
            assert(be_val(v@) == be_val(before) * 256 + (u % 256));
            assert((u / 256) * 256 + u % 256 == u) by (nonlinear_arith);
        }
        v
    }
}

proof fn lemma_pow256_8()
    ensures
        crate::wire::pow256(8) == 0x1_0000_0000_0000_0000,
{
    assert(crate::wire::pow256(0) == 1);
    assert(crate::wire::pow256(1) == 256);
    assert(crate::wire::pow256(2) == 0x1_0000);
    assert(crate::wire::pow256(3) == 0x100_0000);
    assert(crate::wire::pow256(4) == 0x1_0000_0000);
    assert(crate::wire::pow256(5) == 0x100_0000_0000);
    assert(crate::wire::pow256(6) == 0x1_0000_0000_0000);
    assert(crate::wire::pow256(7) == 0x100_0000_0000_0000);
    assert(crate::wire::pow256(8) == 0x1_0000_0000_0000_0000);
}

/// TTLV encoding utility: holds the serial packet-id counter.
pub struct EncodeTools {
    packet_id: u16,
}

impl EncodeTools {
    /// The counter never reaches 0xffff, so incrementing it cannot wrap.
    pub closed spec fn wf(&self) -> bool {
        self.packet_id < 0xffff
    }

    /// The current value of the serial packet-id counter.
    pub closed spec fn serial(&self) -> u16 {
        self.packet_id
    }

    pub fn new() -> (r: Self)
        ensures
            r.wf(),
            r.serial() == 0,
    {
        Self { packet_id: 0 }
    }

    pub fn get_packet_id(&self) -> (r: u16)
        ensures
            r == self.serial(),
    {
        self.packet_id
    }

    /// Advances the serial counter and returns its new value: 1000, 1001, …,
    /// 0xfffe, then 1000 again; never 0 and never 0xffff.
    pub fn get_serial_num(&mut self) -> (r: u16)
        requires
            old(self).wf(),
        ensures
            final(self).wf(),
            r == next_serial(old(self).serial()),
            final(self).serial() == r,
            1000 <= r <= 0xfffe,
    {
        self.packet_id = self.packet_id + 1;
        if self.packet_id < 1000 || self.packet_id >= 0xffff {
            self.packet_id = 1000;
        }
        self.packet_id
    }

    /// Computes the protocol checksum: the 8-bit wrapping sum of `data`.
    pub fn sum_calculation(&self, data: &[u8]) -> (r: u8)
        ensures
            r == sum8(data@),
    {
        wrap8_sum(data)
    }

    /// Inserts a 0x55 after every 0xAA whose successor is 0x55 or 0xAA,
    /// leaving the two preamble bytes alone, so that no interior byte pair
    /// can be mistaken for a frame boundary.
    pub fn garble_buffer(&self, data: &[u8]) -> (r: Vec<u8>)
        ensures
            r@ == stuff(data@),
    {
        stuff_bytes(data)
    }

    /// The two-byte big-endian form of `value`.
    fn get_byte_by_short(&self, value: i32) -> (r: Vec<u8>)
        requires
            0 <= value <= 0xffff,
        ensures
            r@ == two_be(value as int),
    {
        let mut result: Vec<u8> = Vec::new();
        result.push((value / 256) as u8);
        result.push((value % 256) as u8);
        proof {
            assert(result@ =~= two_be(value as int));
        }
        result
    }

    /// The eight-byte big-endian form of `value`.
    fn get_byte_by_long(&self, value: i64) -> (r: Vec<u8>)
        ensures
            r@.len() == 8,
            be_val(r@) == value as u64,
    {
        proof {
            lemma_pow256_8();
        }
        be_bytes_w(value as u64, 8)
    }

    /// The eight-byte big-endian form of `value`.
    fn u64_buffer(&self, value: i64) -> (r: Vec<u8>)
        ensures
            r@.len() == 8,
            be_val(r@) == value as u64,
    {
        self.get_byte_by_long(value)
    }

    /// The minimal big-endian form of a non-negative value: no leading zero
    /// byte, and a single 0x00 for zero.
    fn long_to_byte_array_big_endian(&self, l: i64) -> (r: Vec<u8>)
        requires
            l >= 0,
        ensures
            r@ == min_be(l as nat),
    {
        min_be_bytes(l as u64)
    }

    /// The length-prefixed body of a binary field; empty for any other value.
    fn encode_binary(&self, obj: &TTLVData) -> (r: Vec<u8>)
        requires
            valid_value(obj.value.deep()),
        ensures
            r@ == match obj.value.deep() {
                SpecValue::Binary(b) => two_be(b.len() as int) + b,
                _ => Seq::<u8>::empty(),
            },
    {
        match &obj.value {
            TTLVValue::Binary(bytes) => {
                let mut result = self.get_byte_by_short(bytes.len() as i32);
                push_all(&mut result, bytes);
                result
            },
            _ => Vec::new(),
        }
    }

    /// The complete wire form of a struct-valued field: header, element
    /// count, then each child that carries a value, recursively.
    fn encode_struct_payload(&self, obj: &TTLVData) -> (r: Vec<u8>)
        requires
            valid_field(obj.deep()),
        ensures
            r@ == match obj.value.deep() {
                SpecValue::Struct(fields) => enc_header(obj.id as int, obj.type_id as int)
                    + enc_value(SpecValue::Struct(fields)),
                _ => enc_header(obj.id as int, obj.type_id as int) + two_be(0),
            },
        decreases *obj,
    {
        let mut buf: Vec<u8> = Vec::new();
        let header = self.get_byte_by_short(obj.id * 8 + obj.type_id);
        push_all(&mut buf, &header);
        match &obj.value {
            TTLVValue::Struct(list) => {
                proof {
                    lemma_deep_fields_len(list@);
                    assert(valid_value(obj.deep().value));
                    assert(deep_fields(list@).len() <= 0xffff);
                }
                let count = self.get_byte_by_short(list.len() as i32);
                push_all(&mut buf, &count);
                let body = self.encode_struct_children(list);
                push_all(&mut buf, &body);
                proof {
                    assert(buf@ =~= enc_header(obj.id as int, obj.type_id as int) + enc_value(
                        SpecValue::Struct(deep_fields(list@)),
                    ));
                }
            },
            _ => {
                let count = self.get_byte_by_short(0);
                push_all(&mut buf, &count);
                proof {
                    assert(buf@ =~= enc_header(obj.id as int, obj.type_id as int) + two_be(0));
                }
            },
        }
        buf
    }

    /// The wire form of a whole payload list: fields that carry no value
    /// encode as their bare id, every other field as header plus body.
    pub fn encode_payload_to_buffer(&self, payloads: &[TTLVData]) -> (r: Vec<u8>)
        requires
            valid_fields(deep_fields(payloads@)),
        ensures
            r@ == enc_fields(deep_fields(payloads@)),
    {
        let ghost df = deep_fields(payloads@);
        proof {
            lemma_deep_fields_len(payloads@);
            lemma_valid_fields_index(df);
        }
        let mut buf: Vec<u8> = Vec::new();
        let mut i: usize = 0;
        proof {
            assert(df.take(0) =~= Seq::<SpecField>::empty());
            assert(buf@ =~= enc_fields(df.take(0)));
        }
        while i < payloads.len()
            invariant
                i <= payloads.len(),
                df == deep_fields(payloads@),
                df.len() == payloads@.len(),
                forall|k: int| 0 <= k < payloads@.len() ==> #[trigger] df[k] == payloads@[k].deep(),
                forall|k: int| 0 <= k < df.len() ==> valid_field(#[trigger] df[k]),
                buf@ == enc_fields(df.take(i as int)),
            decreases payloads.len() - i,
        {
            let ghost pre = buf@;
            let obj = &payloads[i];
            proof {
                assert(df[i as int] == payloads@[i as int].deep());
                assert(valid_field(df[i as int]));
            }
            if !obj.ttlv {
                let id_bytes = self.get_byte_by_short(obj.id);
                push_all(&mut buf, &id_bytes);
            } else {
                let header = self.get_byte_by_short(obj.id * 8 + obj.type_id);
                push_all(&mut buf, &header);
                match &obj.value {
                    TTLVValue::Binary(_) => {
                        let bytes = self.encode_binary(obj);
                        push_all(&mut buf, &bytes);
                    },
                    TTLVValue::Absent => {
                        let bytes = self.encode_binary(obj);
                        push_all(&mut buf, &bytes);
                    },
                    TTLVValue::Boolean(_) => {},
                    TTLVValue::Text(_) => {
                        let bytes = self.encode_enum_value(obj);
                        push_all(&mut buf, &bytes);
                    },
                    TTLVValue::Integer(_) => {
                        let bytes = self.encode_enum_value(obj);
                        push_all(&mut buf, &bytes);
                    },
                    TTLVValue::Decimal(_) => {
                        let bytes = self.encode_enum_value(obj);
                        push_all(&mut buf, &bytes);
                    },
                    TTLVValue::Struct(list) => {
                        proof {
                            lemma_deep_fields_len(list@);
                            assert(valid_value(df[i as int].value));
                            assert(deep_fields(list@).len() <= 0xffff);
                        }
                        let count = self.get_byte_by_short(list.len() as i32);
                        push_all(&mut buf, &count);
                        let body = self.encode_struct_children(list);
                        push_all(&mut buf, &body);
                    },
                }
            }
            proof {
                assert(buf@ =~= pre + enc_field(df[i as int]));
                assert(df.take(i + 1) =~= df.take(i as int) + seq![df[i as int]]);
                lemma_enc_fields_concat(df.take(i as int), seq![df[i as int]]);
                lemma_enc_fields_singleton(df[i as int]);
                assert(buf@ =~= enc_fields(df.take(i + 1)));
            }
            i = i + 1;
        }
        proof {
            assert(df.take(df.len() as int) =~= df);
        }
        buf
    }

    /// The concatenated wire forms of a struct's children.
    fn encode_struct_children(&self, list: &Vec<TTLVData>) -> (r: Vec<u8>)
        requires
            valid_fields(deep_fields(list@)),
        ensures
            r@ == enc_children(deep_fields(list@)),
        decreases list,
    {
        let ghost df = deep_fields(list@);
        proof {
            lemma_deep_fields_len(list@);
            lemma_valid_fields_index(df);
        }
        let mut buf: Vec<u8> = Vec::new();
        let mut i: usize = 0;
        proof {
            assert(df.take(0) =~= Seq::<SpecField>::empty());
            assert(buf@ =~= enc_children(df.take(0)));
        }
        while i < list.len()
            invariant
                i <= list.len(),
                df == deep_fields(list@),
                df.len() == list@.len(),
                forall|k: int| 0 <= k < list@.len() ==> #[trigger] df[k] == list@[k].deep(),
                forall|k: int| 0 <= k < df.len() ==> valid_field(#[trigger] df[k]),
                buf@ == enc_children(df.take(i as int)),
            decreases list.len() - i,
        {
            let ghost pre = buf@;
            let child = &list[i];
            proof {
                assert(df[i as int] == list@[i as int].deep());
                assert(valid_field(df[i as int]));
            }
            if child.ttlv {
                match &child.value {
                    TTLVValue::Struct(_) => {
                        let bytes = self.encode_struct_payload(child);
                        push_all(&mut buf, &bytes);
                    },
                    TTLVValue::Binary(_) => {
                        let child_header = self.get_byte_by_short(child.id * 8 + child.type_id);
                        push_all(&mut buf, &child_header);
                        let bytes = self.encode_binary(child);
                        push_all(&mut buf, &bytes);
                    },
                    TTLVValue::Text(_) => {
                        let child_header = self.get_byte_by_short(child.id * 8 + child.type_id);
                        push_all(&mut buf, &child_header);
                        let bytes = self.encode_enum_value(child);
                        push_all(&mut buf, &bytes);
                    },
                    TTLVValue::Integer(_) => {
                        let child_header = self.get_byte_by_short(child.id * 8 + child.type_id);
                        push_all(&mut buf, &child_header);
                        let bytes = self.encode_enum_value(child);
                        push_all(&mut buf, &bytes);
                    },
                    TTLVValue::Decimal(_) => {
                        let child_header = self.get_byte_by_short(child.id * 8 + child.type_id);
                        push_all(&mut buf, &child_header);
                        let bytes = self.encode_enum_value(child);
                        push_all(&mut buf, &bytes);
                    },
                    _ => {
                        let child_header = self.get_byte_by_short(child.id * 8 + child.type_id);
                        push_all(&mut buf, &child_header);
                    },
                }
            }
            proof {
                assert(buf@ =~= pre + enc_child(df[i as int]));
                assert(df.take(i + 1) =~= df.take(i as int) + seq![df[i as int]]);
                lemma_enc_children_concat(df.take(i as int), seq![df[i as int]]);
                lemma_enc_children_singleton(df[i as int]);
                assert(buf@ =~= enc_children(df.take(i + 1)));
            }
            i = i + 1;
        }
        proof {
            assert(df.take(df.len() as int) =~= df);
        }
        buf
    }

    /// The payload of a read command: the bare two-byte id of every field.
    pub fn encode_read_payload_to_buffer(&self, payloads: &[TTLVData]) -> (r: Vec<u8>)
        requires
            valid_fields(deep_fields(payloads@)),
        ensures
            r@ == enc_read_fields(deep_fields(payloads@)),
    {
        let ghost df = deep_fields(payloads@);
        proof {
            lemma_deep_fields_len(payloads@);
            lemma_valid_fields_index(df);
        }
        let mut buf: Vec<u8> = Vec::new();
        let mut i: usize = 0;
        proof {
            assert(df.take(0) =~= Seq::<SpecField>::empty());
            assert(buf@ =~= enc_read_fields(df.take(0)));
        }
        while i < payloads.len()
            invariant
                i <= payloads.len(),
                df == deep_fields(payloads@),
                df.len() == payloads@.len(),
                forall|k: int| 0 <= k < payloads@.len() ==> #[trigger] df[k] == payloads@[k].deep(),
                forall|k: int| 0 <= k < df.len() ==> valid_field(#[trigger] df[k]),
                buf@ == enc_read_fields(df.take(i as int)),
            decreases payloads.len() - i,
        {
            let ghost pre = buf@;
            let obj = &payloads[i];
            proof {
                assert(df[i as int] == payloads@[i as int].deep());
                assert(valid_field(df[i as int]));
            }
            let id_bytes = self.get_byte_by_short(obj.id);
            push_all(&mut buf, &id_bytes);
            proof {
                assert(buf@ =~= pre + two_be(df[i as int].id));
                assert(df.take(i + 1) =~= df.take(i as int) + seq![df[i as int]]);
                lemma_enc_read_fields_concat(df.take(i as int), seq![df[i as int]]);
                lemma_enc_read_fields_singleton(df[i as int]);
                assert(buf@ =~= enc_read_fields(df.take(i + 1)));
            }
            i = i + 1;
        }
        proof {
            assert(df.take(df.len() as int) =~= df);
        }
        buf
    }

    /// Encodes a command model, always drawing a fresh packet id from the
    /// serial counter.
    pub fn start_encode(&mut self, model: &TtlvCommandModel) -> (r: EncodeResult)
        requires
            old(self).wf(),
            0 <= model.cmd <= 0xffff,
            valid_fields(deep_fields(model.payloads@)),
            payload_of(*model).len() + 5 <= 0xffff,
        ensures
            final(self).wf(),
            final(self).serial() == next_serial(old(self).serial()),
            r.spec_cmd() == model.cmd as u16,
            r.spec_packet_id() == next_serial(old(self).serial()),
            r.spec_cmd_key() == cmd_key_of(r.spec_cmd(), r.spec_packet_id()),
            r.spec_cmd_data() == stuff(
                envelope(model.cmd as u16, r.spec_packet_id(), payload_of(*model)),
            ),
    {
        self.start_encode_with_packet_id(model, false)
    }

    /// Encodes a command model into the wire envelope: preamble, length,
    /// checksum, packet id, command, payload, then the byte-stuffing pass.
    /// With `is_use_packet_id` the model's own packet id is kept; otherwise
    /// the serial counter supplies the next one.
    pub fn start_encode_with_packet_id(
        &mut self,
        model: &TtlvCommandModel,
        is_use_packet_id: bool,
    ) -> (r: EncodeResult)
        requires
            old(self).wf(),
            0 <= model.cmd <= 0xffff,
            valid_fields(deep_fields(model.payloads@)),
            payload_of(*model).len() + 5 <= 0xffff,
        ensures
            final(self).wf(),
            final(self).serial() == if is_use_packet_id {
                old(self).serial()
            } else {
                next_serial(old(self).serial())
            },
            r.spec_cmd() == model.cmd as u16,
            r.spec_packet_id() == if is_use_packet_id {
                (model.packet_id & 0xffff) as u16
            } else {
                next_serial(old(self).serial())
            },
            r.spec_cmd_key() == cmd_key_of(r.spec_cmd(), r.spec_packet_id()),
            r.spec_cmd_data() == stuff(
                envelope(model.cmd as u16, r.spec_packet_id(), payload_of(*model)),
            ),
    {
        let cmd = model.cmd as u16;
        let payload: Vec<u8> = if cmd == 0x0011 {
            self.encode_read_payload_to_buffer(model.payloads.as_slice())
        } else {
            self.encode_payload_to_buffer(model.payloads.as_slice())
        };
        proof {
            assert(model.cmd == 0x0011 <==> cmd == 0x0011);
            assert(payload@ == payload_of(*model));
        }
        let packet_id: u16 = if is_use_packet_id {
            let raw = model.packet_id;
            let masked = raw & 0xffff;
            proof {
                assert(0 <= raw & 0xffff < 0x10000) by (bit_vector);
            }
            masked as u16
        } else {
            self.get_serial_num()
        };
        self.finish_envelope(cmd, packet_id, payload)
    }

    /// Encodes a transparent frame: the payload bytes go onto the wire as
    /// they are, with the same envelope around them.
    pub fn start_encode_transparent(&mut self, model: &TtlvTransparentModel) -> (r: EncodeResult)
        requires
            old(self).wf(),
            model.payloads@.len() + 5 <= 0xffff,
        ensures
            final(self).wf(),
            final(self).serial() == if model.packet_id is Some {
                old(self).serial()
            } else {
                next_serial(old(self).serial())
            },
            r.spec_cmd() == model.cmd,
            r.spec_packet_id() == match model.packet_id {
                Some(id) => (id & 0xffff) as u16,
                None => next_serial(old(self).serial()),
            },
            r.spec_cmd_key() == cmd_key_of(r.spec_cmd(), r.spec_packet_id()),
            r.spec_cmd_data() == stuff(envelope(model.cmd, r.spec_packet_id(), model.payloads@)),
    {
        let mut payload: Vec<u8> = Vec::new();
        push_all(&mut payload, &model.payloads);
        proof {
            assert(payload@ =~= model.payloads@);
        }
        let packet_id: u16 = match model.packet_id {
            Some(id) => {
                let masked = id & 0xffff;
                proof {
                    assert(0 <= id & 0xffff < 0x10000) by (bit_vector);
                }
                masked as u16
            },
            None => self.get_serial_num(),
        };
        self.finish_envelope(model.cmd, packet_id, payload)
    }

    /// Wraps an encoded payload in the envelope, computes the checksum, runs
    /// the stuffing pass and fills in the result record.
    fn finish_envelope(&self, cmd: u16, packet_id: u16, payload: Vec<u8>) -> (r: EncodeResult)
        requires
            payload@.len() + 5 <= 0xffff,
        ensures
            r.spec_cmd() == cmd,
            r.spec_packet_id() == packet_id,
            r.spec_cmd_key() == cmd_key_of(cmd, packet_id),
            r.spec_cmd_data() == stuff(envelope(cmd, packet_id, payload@)),
    {
        let mut tail: Vec<u8> = Vec::new();
        let pid_bytes = self.get_byte_by_short(packet_id as i32);
        push_all(&mut tail, &pid_bytes);
        let cmd_bytes = self.get_byte_by_short(cmd as i32);
        push_all(&mut tail, &cmd_bytes);
        push_all(&mut tail, &payload);
        proof {
            assert(tail@ =~= two_be(packet_id as int) + two_be(cmd as int) + payload@);
        }
        let crc = wrap8_sum(tail.as_slice());
        let mut cmd_data: Vec<u8> = Vec::new();
        cmd_data.push(0xaa);
        cmd_data.push(0xaa);
        let len_bytes = self.get_byte_by_short((5 + payload.len()) as i32);
        push_all(&mut cmd_data, &len_bytes);
        cmd_data.push(crc);
        push_all(&mut cmd_data, &tail);
        proof {
            assert(cmd_data@ =~= envelope(cmd, packet_id, payload@));
        }
        let data = self.garble_buffer(cmd_data.as_slice());
        let ckey: u32 = (cmd as u32) * 0x10000 + (packet_id as u32);
        let mut result = EncodeResult::new();
        result.set_cmd_key(ckey);
        result.set_cmd_data(data);
        result.set_cmd(cmd);
        result.set_packet_id(packet_id);
        result
    }

    /// The descriptor-plus-magnitude body for a decimal integer string.
    fn get_long_result(&self, data: &str) -> (r: Vec<u8>)
        requires
            dec_str_ok(data.spec_bytes()),
            i64::MIN <= dec_str_value(data.spec_bytes()) <= i64::MAX,
        ensures
            r@ == enc_num(dec_str_value(data.spec_bytes()) as i64, 0),
    {
        match parse_i64_bytes(data.as_bytes()) {
            Some(value) => num_bytes(value, 0),
            None => {
                proof {
                    assert(false);
                }
                Vec::new()
            },
        }
    }

    /// The descriptor-plus-magnitude body of a numeric field; empty for any
    /// other value.
    fn encode_enum_value(&self, obj: &TTLVData) -> (r: Vec<u8>)
        requires
            valid_value(obj.value.deep()),
        ensures
            r@ == match obj.value.deep() {
                SpecValue::Integer(i) => enc_num(i, 0),
                SpecValue::Decimal { value, count } => enc_num(value, count),
                SpecValue::Text(s) => enc_num(dec_str_value(encode_utf8(s)) as i64, 0),
                _ => Seq::<u8>::empty(),
            },
    {
        match &obj.value {
            TTLVValue::Integer(i) => num_bytes(*i, 0),
            TTLVValue::Decimal(d) => num_bytes(d.value, d.count),
            TTLVValue::Text(t) => self.get_long_result(t.as_str()),
            _ => Vec::new(),
        }
    }
}

} // verus!
