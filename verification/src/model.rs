//! The TTLV value model: the tagged value union, the field record, the
//! command and transparent frame types, and the encoder's result record,
//! together with their mathematical views.

use vstd::prelude::*;
use vstd::utf8::encode_utf8;

verus! {

// ---------------------------------------------------------------------------
// Mathematical views
// ---------------------------------------------------------------------------

/// Mathematical view of a TTLV value.
pub enum SpecValue {
    Absent,
    Boolean(bool),
    Text(Seq<char>),
    Integer(i64),
    /// A decimal fraction `value / 10^count`, kept as its integer mantissa
    /// and decimal exponent.
    Decimal { value: i64, count: nat },
    Binary(Seq<u8>),
    Struct(Seq<SpecField>),
}

/// Mathematical view of one TTLV field.
pub struct SpecField {
    pub id: int,
    pub type_id: int,
    pub ttlv: bool,
    pub value: SpecValue,
}

/// Mathematical view of a decoded or to-be-encoded command frame.
pub struct SpecFrame {
    pub cmd: int,
    pub packet_id: int,
    pub payloads: Seq<SpecField>,
}

/// Mathematical view of a transparent frame.
pub struct SpecTransparent {
    pub cmd: int,
    pub packet_id: Option<int>,
    pub payloads: Seq<u8>,
}

/// The wire type tag that belongs to a value: -1 for an absent value, 0/1 for
/// booleans, 2 for numbers, 3 for binary, 4 for structs.
pub open spec fn spec_type_id(v: SpecValue) -> int {
    match v {
        SpecValue::Absent => -1,
        SpecValue::Boolean(b) => if b {
            1int
        } else {
            0int
        },
        SpecValue::Text(_) => 2,
        SpecValue::Integer(_) => 2,
        SpecValue::Decimal { .. } => 2,
        SpecValue::Binary(_) => 3,
        SpecValue::Struct(_) => 4,
    }
}

// ---------------------------------------------------------------------------
// Executable types
// ---------------------------------------------------------------------------

/// A decimal mantissa and its decimal exponent: the pair stands for the
/// number `value / 10^count`.
#[derive(Clone, Debug)]
pub struct DoubleNeedValue {
    pub value: i64,
    pub count: usize,
}

/// Type-safe TTLV value representation.
#[derive(Debug)]
pub enum TTLVValue {
    Absent,
    Boolean(bool),
    Text(String),
    Integer(i64),
    Decimal(DoubleNeedValue),
    Binary(Vec<u8>),
    Struct(Vec<TTLVData>),
}

/// One TTLV field: a 13-bit id, a 3-bit wire type, whether the field carries
/// a value on the wire, and the value itself.
#[derive(Debug)]
pub struct TTLVData {
    pub id: i32,
    pub type_id: i32,
    pub ttlv: bool,
    pub value: TTLVValue,
}

/// Command model for the TTLV protocol.
#[derive(Debug)]
pub struct TtlvCommandModel {
    pub cmd: i32,
    pub packet_id: i32,
    pub payloads: Vec<TTLVData>,
}

/// A frame whose payload the codec passes through untouched.
#[derive(Clone, Debug)]
pub struct TtlvTransparentModel {
    pub cmd: u16,
    pub packet_id: Option<i32>,
    pub payloads: Vec<u8>,
}

impl TTLVValue {
    /// Mathematical view of this value.
    pub open spec fn deep(self) -> SpecValue
        decreases self,
    {
        match self {
            TTLVValue::Absent => SpecValue::Absent,
            TTLVValue::Boolean(b) => SpecValue::Boolean(b),
            TTLVValue::Text(s) => SpecValue::Text(s@),
            TTLVValue::Integer(i) => SpecValue::Integer(i),
            TTLVValue::Decimal(d) => SpecValue::Decimal { value: d.value, count: d.count as nat },
            TTLVValue::Binary(b) => SpecValue::Binary(b@),
            TTLVValue::Struct(fields) => SpecValue::Struct(deep_fields(fields@)),
        }
    }

    /// Get the type_id that corresponds to this value.
    pub fn type_id(&self) -> (r: i32)
        ensures
            r == spec_type_id(self.deep()),
    {
        match self {
            TTLVValue::Absent => -1,
            TTLVValue::Boolean(b) => if *b {
                1
            } else {
                0
            },
            TTLVValue::Text(_) => 2,
            TTLVValue::Integer(_) => 2,
            TTLVValue::Decimal(_) => 2,
            TTLVValue::Binary(_) => 3,
            TTLVValue::Struct(_) => 4,
        }
    }
}

/// Mathematical view of a sequence of fields.
pub open spec fn deep_fields(s: Seq<TTLVData>) -> Seq<SpecField>
    decreases s,
{
    if s.len() == 0 {
        Seq::empty()
    } else {
        seq![s[0].deep()] + deep_fields(s.drop_first())
    }
}

pub proof fn lemma_deep_fields_len(s: Seq<TTLVData>)
    ensures
        deep_fields(s).len() == s.len(),
        forall|i: int| 0 <= i < s.len() ==> #[trigger] deep_fields(s)[i] == s[i].deep(),
    decreases s,
{
    if s.len() > 0 {
        lemma_deep_fields_len(s.drop_first());
    }
}

pub proof fn lemma_deep_fields_push(s: Seq<TTLVData>, d: TTLVData)
    ensures
        deep_fields(s.push(d)) == deep_fields(s).push(d.deep()),
    decreases s,
{
    lemma_deep_fields_len(s);
    lemma_deep_fields_len(s.push(d));
    assert(deep_fields(s.push(d)) =~= deep_fields(s).push(d.deep()));
}

impl TTLVData {
    /// Mathematical view of this field.
    pub open spec fn deep(self) -> SpecField
        decreases self,
    {
        SpecField {
            id: self.id as int,
            type_id: self.type_id as int,
            ttlv: self.ttlv,
            value: self.value.deep(),
        }
    }

    pub fn new(id: i32, type_id: i32, ttlv: bool) -> (r: Self)
        ensures
            r.deep() == (SpecField {
                id: id as int,
                type_id: type_id as int,
                ttlv,
                value: SpecValue::Absent,
            }),
    {
        Self { id, type_id, ttlv, value: TTLVValue::Absent }
    }

    pub fn with_boolean(self, value: bool) -> (r: Self)
        ensures
            r.deep() == (SpecField {
                type_id: if value {
                    1int
                } else {
                    0int
                },
                value: SpecValue::Boolean(value),
                ..self.deep()
            }),
    {
        Self {
            value: TTLVValue::Boolean(value),
            type_id: if value {
                1
            } else {
                0
            },
            ..self
        }
    }

    pub fn with_string(self, value: String) -> (r: Self)
        ensures
            r.deep() == (SpecField {
                type_id: 2,
                value: SpecValue::Text(value@),
                ..self.deep()
            }),
    {
        Self { value: TTLVValue::Text(value), type_id: 2, ..self }
    }

    pub fn with_integer(self, value: i64) -> (r: Self)
        ensures
            r.deep() == (SpecField {
                type_id: 2,
                value: SpecValue::Integer(value),
                ..self.deep()
            }),
    {
        Self { value: TTLVValue::Integer(value), type_id: 2, ..self }
    }

    /// Attach a decimal-fraction value `value / 10^count`.
    pub fn with_decimal(self, value: DoubleNeedValue) -> (r: Self)
        ensures
            r.deep() == (SpecField {
                type_id: 2,
                value: SpecValue::Decimal { value: value.value, count: value.count as nat },
                ..self.deep()
            }),
    {
        Self { value: TTLVValue::Decimal(value), type_id: 2, ..self }
    }

    pub fn with_binary(self, value: Vec<u8>) -> (r: Self)
        ensures
            r.deep() == (SpecField {
                type_id: 3,
                value: SpecValue::Binary(value@),
                ..self.deep()
            }),
    {
        Self { value: TTLVValue::Binary(value), type_id: 3, ..self }
    }

    pub fn with_struct(self, value: Vec<TTLVData>) -> (r: Self)
        ensures
            r.deep() == (SpecField {
                type_id: 4,
                value: SpecValue::Struct(deep_fields(value@)),
                ..self.deep()
            }),
    {
        Self { value: TTLVValue::Struct(value), type_id: 4, ..self }
    }

    pub fn as_boolean(&self) -> (r: Option<bool>)
        ensures
            match self.value.deep() {
                SpecValue::Boolean(b) => r == Some(b),
                _ => r is None,
            },
    {
        match &self.value {
            TTLVValue::Boolean(b) => Some(*b),
            _ => None,
        }
    }

    pub fn as_string(&self) -> (r: Option<&String>)
        ensures
            match self.value.deep() {
                SpecValue::Text(s) => r is Some && r->0@ == s,
                _ => r is None,
            },
    {
        match &self.value {
            TTLVValue::Text(s) => Some(s),
            _ => None,
        }
    }

    pub fn as_integer(&self) -> (r: Option<i64>)
        ensures
            match self.value.deep() {
                SpecValue::Integer(i) => r == Some(i),
                _ => r is None,
            },
    {
        match &self.value {
            TTLVValue::Integer(i) => Some(*i),
            _ => None,
        }
    }

    /// Get the value as a decimal fraction.
    pub fn as_decimal(&self) -> (r: Option<&DoubleNeedValue>)
        ensures
            match self.value.deep() {
                SpecValue::Decimal { value, count } => r is Some && r->0.value == value && r->0.count
                    == count,
                _ => r is None,
            },
    {
        match &self.value {
            TTLVValue::Decimal(d) => Some(d),
            _ => None,
        }
    }

    pub fn as_binary(&self) -> (r: Option<&Vec<u8>>)
        ensures
            match self.value.deep() {
                SpecValue::Binary(b) => r is Some && r->0@ == b,
                _ => r is None,
            },
    {
        match &self.value {
            TTLVValue::Binary(b) => Some(b),
            _ => None,
        }
    }

    pub fn as_struct(&self) -> (r: Option<&Vec<TTLVData>>)
        ensures
            match self.value.deep() {
                SpecValue::Struct(s) => r is Some && deep_fields(r->0@) == s,
                _ => r is None,
            },
    {
        match &self.value {
            TTLVValue::Struct(s) => Some(s),
            _ => None,
        }
    }
}

impl TtlvCommandModel {
    /// Mathematical view of this frame.
    pub open spec fn deep(self) -> SpecFrame {
        SpecFrame {
            cmd: self.cmd as int,
            packet_id: self.packet_id as int,
            payloads: deep_fields(self.payloads@),
        }
    }

    pub fn new(cmd: i32, packet_id: i32) -> (r: Self)
        ensures
            r.deep() == (SpecFrame {
                cmd: cmd as int,
                packet_id: packet_id as int,
                payloads: Seq::empty(),
            }),
            r.cmd == cmd,
            r.packet_id == packet_id,
            r.payloads@.len() == 0,
    {
        Self { cmd, packet_id, payloads: Vec::new() }
    }

    pub fn set_cmd(&mut self, cmd: i32)
        ensures
            *final(self) == (Self { cmd, ..*old(self) }),
    {
        self.cmd = cmd;
    }

    pub fn set_packet_id(&mut self, packet_id: i32)
        ensures
            *final(self) == (Self { packet_id, ..*old(self) }),
    {
        self.packet_id = packet_id;
    }

    pub fn add_payload(&mut self, payload: TTLVData)
        ensures
            final(self).cmd == old(self).cmd,
            final(self).packet_id == old(self).packet_id,
            final(self).payloads@ == old(self).payloads@.push(payload),
            final(self).deep().payloads == old(self).deep().payloads.push(payload.deep()),
    {
        proof {
            lemma_deep_fields_push(self.payloads@, payload);
        }
        self.payloads.push(payload);
    }

    pub fn get_cmd(&self) -> (r: i32)
        ensures
            r == self.cmd,
    {
        self.cmd
    }

    pub fn get_packet_id(&self) -> (r: i32)
        ensures
            r == self.packet_id,
    {
        self.packet_id
    }

    pub fn get_payloads(&self) -> (r: &Vec<TTLVData>)
        ensures
            r == &self.payloads,
    {
        &self.payloads
    }
}

impl TtlvTransparentModel {
    /// Mathematical view of this frame.
    pub open spec fn deep(self) -> SpecTransparent {
        SpecTransparent {
            cmd: self.cmd as int,
            packet_id: match self.packet_id {
                Some(p) => Some(p as int),
                None => None,
            },
            payloads: self.payloads@,
        }
    }

    pub fn new(cmd: u16) -> (r: Self)
        ensures
            r.cmd == cmd,
            r.packet_id is None,
            r.payloads@.len() == 0,
    {
        Self { cmd, packet_id: None, payloads: Vec::new() }
    }
}

/// What the encoder hands back: the stuffed frame bytes together with the
/// command, the packet id that was used, and their combined lookup key.
#[derive(Clone, Debug)]
pub struct EncodeResult {
    cmd_key: u32,
    cmd_data: Vec<u8>,
    cmd: u16,
    packet_id: u16,
}

impl EncodeResult {
    /// The lookup key `(cmd << 16) | packet_id`.
    pub closed spec fn spec_cmd_key(self) -> u32 {
        self.cmd_key
    }

    /// The emitted frame bytes.
    pub closed spec fn spec_cmd_data(self) -> Seq<u8> {
        self.cmd_data@
    }

    pub closed spec fn spec_cmd(self) -> u16 {
        self.cmd
    }

    pub closed spec fn spec_packet_id(self) -> u16 {
        self.packet_id
    }

    pub fn new() -> (r: Self)
        ensures
            r.spec_cmd_key() == 0,
            r.spec_cmd_data() == Seq::<u8>::empty(),
            r.spec_cmd() == 0,
            r.spec_packet_id() == 0,
    {
        Self { cmd_key: 0, cmd_data: Vec::new(), cmd: 0, packet_id: 0 }
    }

    pub fn set_cmd_key(&mut self, cmd_key: u32)
        ensures
            final(self).spec_cmd_key() == cmd_key,
            final(self).spec_cmd_data() == old(self).spec_cmd_data(),
            final(self).spec_cmd() == old(self).spec_cmd(),
            final(self).spec_packet_id() == old(self).spec_packet_id(),
    {
        self.cmd_key = cmd_key;
    }

    pub fn set_cmd_data(&mut self, cmd_data: Vec<u8>)
        ensures
            final(self).spec_cmd_key() == old(self).spec_cmd_key(),
            final(self).spec_cmd_data() == cmd_data@,
            final(self).spec_cmd() == old(self).spec_cmd(),
            final(self).spec_packet_id() == old(self).spec_packet_id(),
    {
        self.cmd_data = cmd_data;
    }

    pub fn set_cmd(&mut self, cmd: u16)
        ensures
            final(self).spec_cmd_key() == old(self).spec_cmd_key(),
            final(self).spec_cmd_data() == old(self).spec_cmd_data(),
            final(self).spec_cmd() == cmd,
            final(self).spec_packet_id() == old(self).spec_packet_id(),
    {
        self.cmd = cmd;
    }

    pub fn set_packet_id(&mut self, packet_id: u16)
        ensures
            final(self).spec_cmd_key() == old(self).spec_cmd_key(),
            final(self).spec_cmd_data() == old(self).spec_cmd_data(),
            final(self).spec_cmd() == old(self).spec_cmd(),
            final(self).spec_packet_id() == packet_id,
    {
        self.packet_id = packet_id;
    }

    pub fn get_cmd_key(&self) -> (r: u32)
        ensures
            r == self.spec_cmd_key(),
    {
        self.cmd_key
    }

    pub fn get_cmd_data(&self) -> (r: &Vec<u8>)
        ensures
            r@ == self.spec_cmd_data(),
    {
        &self.cmd_data
    }

    pub fn get_cmd(&self) -> (r: u16)
        ensures
            r == self.spec_cmd(),
    {
        self.cmd
    }

    pub fn get_packet_id(&self) -> (r: u16)
        ensures
            r == self.spec_packet_id(),
    {
        self.packet_id
    }
}

impl DoubleNeedValue {
    pub fn new() -> (r: Self)
        ensures
            r.value == 0,
            r.count == 0,
    {
        Self { value: 0, count: 0 }
    }

    pub fn set_value(&mut self, value: i64)
        ensures
            *final(self) == (Self { value, ..*old(self) }),
    {
        self.value = value;
    }

    pub fn set_count(&mut self, count: usize)
        ensures
            *final(self) == (Self { count, ..*old(self) }),
    {
        self.count = count;
    }

    pub fn get_value(&self) -> (r: i64)
        ensures
            r == self.value,
    {
        self.value
    }

    pub fn get_count(&self) -> (r: usize)
        ensures
            r == self.count,
    {
        self.count
    }
}

// ---------------------------------------------------------------------------
// Validity and canonicality
// ---------------------------------------------------------------------------

/// Every byte is the ASCII code of a decimal digit.
pub open spec fn all_digits(s: Seq<u8>) -> bool {
    forall|i: int| 0 <= i < s.len() ==> 48 <= #[trigger] s[i] <= 57
}

/// The value of a run of ASCII decimal digits.
pub open spec fn digits_val(s: Seq<u8>) -> int
    decreases s.len(),
{
    if s.len() == 0 {
        0
    } else {
        digits_val(s.drop_last()) * 10 + (s.last() - 48)
    }
}

/// The bytes form a decimal integer: an optional leading minus sign, then at
/// least one digit.
pub open spec fn dec_str_ok(s: Seq<u8>) -> bool {
    if s.len() >= 1 && s[0] == 45 {
        s.len() >= 2 && all_digits(s.skip(1))
    } else {
        s.len() >= 1 && all_digits(s)
    }
}

/// The signed value of a decimal integer string.
pub open spec fn dec_str_value(s: Seq<u8>) -> int {
    if s.len() >= 1 && s[0] == 45 {
        -digits_val(s.skip(1))
    } else {
        digits_val(s)
    }
}

/// Text the encoder accepts: the decimal rendering of a 64-bit integer.
/// Fractional text goes through floating point in normalization and is
/// converted to a `Decimal` value before it reaches the encoder.
pub open spec fn text_numeric(s: Seq<char>) -> bool {
    &&& dec_str_ok(encode_utf8(s))
    &&& i64::MIN <= dec_str_value(encode_utf8(s)) <= i64::MAX
}

/// A value the encoder accepts: decimal exponents fit the four descriptor
/// bits, binary and struct lengths fit their two-byte wire fields, and text
/// is normalized to a number before encoding.
pub open spec fn valid_value(v: SpecValue) -> bool
    decreases v,
{
    match v {
        SpecValue::Absent => true,
        SpecValue::Boolean(_) => true,
        SpecValue::Text(s) => text_numeric(s),
        SpecValue::Integer(_) => true,
        SpecValue::Decimal { value, count } => count <= 15,
        SpecValue::Binary(b) => b.len() <= 0xffff,
        SpecValue::Struct(fields) => fields.len() <= 0xffff && valid_fields(fields),
    }
}

/// A field the encoder accepts: the id fits 13 bits and the type tag 3 bits.
pub open spec fn valid_field(f: SpecField) -> bool
    decreases f,
{
    0 <= f.id <= 0x1fff && 0 <= f.type_id <= 7 && valid_value(f.value)
}

pub open spec fn valid_fields(fields: Seq<SpecField>) -> bool
    decreases fields,
{
    if fields.len() == 0 {
        true
    } else {
        valid_field(fields[0]) && valid_fields(fields.drop_first())
    }
}

/// A value in the exact shape the decoder itself produces, so that encoding
/// and then decoding it gives it back unchanged.
pub open spec fn canonical_value(type_id: int, v: SpecValue) -> bool
    decreases v,
{
    match v {
        SpecValue::Boolean(b) => type_id == if b {
            1int
        } else {
            0int
        },
        SpecValue::Integer(_) => type_id == 2,
        SpecValue::Decimal { value, count } => type_id == 2 && 1 <= count <= 15,
        SpecValue::Binary(b) => (type_id == 3 || type_id == 5) && 1 <= b.len() <= 0xffff,
        SpecValue::Struct(fields) => type_id == 4 && fields.len() <= 0xffff && canonical_fields(
            fields,
        ),
        _ => false,
    }
}

/// A field in the exact shape the decoder itself produces.
pub open spec fn canonical_field(f: SpecField) -> bool
    decreases f,
{
    f.ttlv && 0 <= f.id <= 0x1fff && canonical_value(f.type_id, f.value)
}

pub open spec fn canonical_fields(fields: Seq<SpecField>) -> bool
    decreases fields,
{
    if fields.len() == 0 {
        true
    } else {
        canonical_field(fields[0]) && canonical_fields(fields.drop_first())
    }
}

pub proof fn lemma_canonical_fields_index(fields: Seq<SpecField>)
    requires
        canonical_fields(fields),
    ensures
        forall|i: int| 0 <= i < fields.len() ==> canonical_field(#[trigger] fields[i]),
    decreases fields,
{
    if fields.len() > 0 {
        lemma_canonical_fields_index(fields.drop_first());
        assert forall|i: int| 0 <= i < fields.len() implies canonical_field(
            #[trigger] fields[i],
        ) by {
            if i > 0 {
                assert(fields[i] == fields.drop_first()[i - 1]);
            }
        }
    }
}

/// Every canonical value is one the encoder accepts.
pub proof fn lemma_canonical_implies_valid(type_id: int, v: SpecValue)
    requires
        canonical_value(type_id, v),
    ensures
        valid_value(v),
        0 <= type_id <= 7,
    decreases v,
{
    match v {
        SpecValue::Struct(fields) => {
            lemma_canonical_fields_implies_valid(fields);
        },
        _ => {},
    }
}

pub proof fn lemma_canonical_fields_implies_valid(fields: Seq<SpecField>)
    requires
        canonical_fields(fields),
    ensures
        valid_fields(fields),
    decreases fields,
{
    if fields.len() > 0 {
        assert(canonical_field(fields[0]));
        assert(canonical_value(fields[0].type_id, fields[0].value));
        lemma_canonical_implies_valid(fields[0].type_id, fields[0].value);
        lemma_canonical_fields_implies_valid(fields.drop_first());
        assert(valid_field(fields[0]));
    }
}

} // verus!
