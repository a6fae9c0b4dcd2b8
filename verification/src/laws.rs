//! The codec's guarantees, stated and proved once and for all: the checksum
//! of every emitted frame, the stuffing inverse, the serial-counter range,
//! and the round trip from a canonical command frame through the encoder and
//! back out of the decoder.

use vstd::prelude::*;

use crate::decode::{
    classify, drain, find_preamble, mk_num, parse_bin_at, parse_body_at, parse_elems_at,
    parse_fields_at, parse_num_at, parse_payload_spec, SpecEvent,
};
use crate::encode::{
    abs_i64, enc_child, enc_children, enc_field, enc_fields, enc_header, enc_num, enc_value,
    envelope, next_serial, two_be,
};
use crate::model::{canonical_field, canonical_fields, SpecField, SpecFrame, SpecValue};
use crate::wire::{
    be16, be_val, byte_len, lemma_byte_len_u64, lemma_min_be_val, min_be, no_aa55, stuff, sum8,
    unstuff,
};

verus! {

/// Parsing a numeric body that the encoder produced gives back exactly the
/// number that went in.
proof fn lemma_parse_num_of_enc(p: Seq<u8>, pre: Seq<u8>, post: Seq<u8>, value: i64, count: nat)
    requires
        count <= 15,
        p == pre + enc_num(value, count) + post,
    ensures
        parse_num_at(p, pre.len() as int) == Some(
            (mk_num(value, count), enc_num(value, count).len() as nat),
        ),
{
    let mag = abs_i64(value);
    lemma_min_be_val(mag);
    lemma_byte_len_u64(mag);
    let bl = byte_len(mag) as int;
    let neg: int = if value < 0 {
        128
    } else {
        0
    };
    let d = (neg + count * 8 + (bl - 1)) as u8;
    let body = enc_num(value, count);
    assert(1 <= bl <= 8);
    assert(neg + count * 8 + (bl - 1) <= 255);
    assert(body.len() == 1 + bl);
    let o = pre.len() as int;
    assert(p.len() == pre.len() + body.len() + post.len());
    assert(p[o] == body[0]);
    assert(body[0] == d);
    assert(d as int == neg + count * 8 + (bl - 1));
    assert(d >= 128 <==> value < 0);
    assert((d / 8) % 16 == count) by (nonlinear_arith)
        requires
            d == neg + count * 8 + (bl - 1),
            neg == 128 || neg == 0,
            0 <= bl - 1 < 8,
            count <= 15,
    ;
    assert(d % 8 == bl - 1) by (nonlinear_arith)
        requires
            d == neg + count * 8 + (bl - 1),
            neg == 128 || neg == 0,
            0 <= bl - 1 < 8,
            count <= 15,
    ;
    assert(o + 1 + bl <= p.len());
    assert(p.subrange(o + 1, o + 1 + bl) =~= min_be(mag));
    assert(be_val(p.subrange(o + 1, o + 1 + bl)) == mag);
    if value < 0 {
        assert(mag <= 0x8000_0000_0000_0000);
        assert((-(mag as int)) as i64 == value);
    } else {
        assert(mag <= 0x7fff_ffff_ffff_ffff);
        assert(mag as i64 == value);
    }
}

/// Parsing a binary body that the encoder produced gives back exactly the
/// bytes that went in.
proof fn lemma_parse_bin_of_enc(p: Seq<u8>, pre: Seq<u8>, post: Seq<u8>, b: Seq<u8>)
    requires
        1 <= b.len() <= 0xffff,
        p == pre + (two_be(b.len() as int) + b) + post,
    ensures
        parse_bin_at(p, pre.len() as int) == Some((b, (2 + b.len()) as nat)),
{
    let o = pre.len() as int;
    let body = two_be(b.len() as int) + b;
    let l = b.len() as int;
    assert(p.len() == pre.len() + body.len() + post.len());
    assert(p[o] == body[0] && p[o + 1] == body[1]);
    assert(body[0] == (l / 256) as u8 && body[1] == (l % 256) as u8);
    assert((l / 256) * 256 + l % 256 == l) by (nonlinear_arith);
    assert(be16(p[o], p[o + 1]) == l);
    assert(o + 2 + l <= p.len());
    assert(p.subrange(o + 2, o + 2 + l) =~= b);
}

/// A two-byte big-endian field reads back as the value that was written.
proof fn lemma_two_be_read(p: Seq<u8>, o: int, v: int)
    requires
        0 <= v <= 0xffff,
        0 <= o,
        o + 2 <= p.len(),
        p[o] == two_be(v)[0],
        p[o + 1] == two_be(v)[1],
    ensures
        be16(p[o], p[o + 1]) == v,
{
    assert((v / 256) * 256 + v % 256 == v) by (nonlinear_arith);
    assert(0 <= v / 256 < 256);
    assert(0 <= v % 256 < 256);
}

/// Parsing a field body that the encoder produced gives back the canonical
/// field that went in.
proof fn lemma_parse_body_of_enc(p: Seq<u8>, pre: Seq<u8>, post: Seq<u8>, f: SpecField)
    requires
        canonical_field(f),
        p == pre + enc_value(f.value) + post,
    ensures
        parse_body_at(p, pre.len() as int, f.id, f.type_id) == (
            Some(f),
            enc_value(f.value).len() as nat,
        ),
    decreases f.value,
{
    let o = pre.len() as int;
    match f.value {
        SpecValue::Boolean(b) => {
            assert(f.type_id == if b {
                1int
            } else {
                0int
            });
        },
        SpecValue::Integer(i) => {
            lemma_parse_num_of_enc(p, pre, post, i, 0);
        },
        SpecValue::Decimal { value, count } => {
            lemma_parse_num_of_enc(p, pre, post, value, count);
        },
        SpecValue::Binary(b) => {
            lemma_parse_bin_of_enc(p, pre, post, b);
        },
        SpecValue::Struct(fields) => {
            let body = enc_value(f.value);
            assert(body =~= two_be(fields.len() as int) + enc_children(fields));
            assert(p[o] == body[0] && p[o + 1] == body[1]);
            lemma_two_be_read(p, o, fields.len() as int);
            assert(p =~= (pre + two_be(fields.len() as int)) + enc_children(fields) + post);
            lemma_parse_elems_of_enc(p, pre + two_be(fields.len() as int), post, fields);
            assert((pre + two_be(fields.len() as int)).len() == o + 2);
        },
        _ => {
            assert(false);
        },
    }
}

/// Parsing an element run that the encoder produced gives back the canonical
/// children that went in.
proof fn lemma_parse_elems_of_enc(p: Seq<u8>, pre: Seq<u8>, post: Seq<u8>, fields: Seq<SpecField>)
    requires
        canonical_fields(fields),
        p == pre + enc_children(fields) + post,
    ensures
        parse_elems_at(p, pre.len() as int, fields.len() as nat) == (
            fields,
            enc_children(fields).len() as nat,
        ),
    decreases fields,
{
    let o = pre.len() as int;
    if fields.len() == 0 {
        assert(parse_elems_at(p, o, 0) == (Seq::<SpecField>::empty(), 0nat));
        assert(fields =~= Seq::<SpecField>::empty());
    } else {
        let f = fields[0];
        assert(canonical_field(f));
        let header = enc_header(f.id, f.type_id);
        let body = enc_value(f.value);
        assert(enc_child(f) =~= header + body);
        assert(enc_children(fields) == enc_child(f) + enc_children(fields.drop_first()));
        let h = f.id * 8 + f.type_id;
        assert(0 <= f.id <= 0x1fff && 0 <= f.type_id <= 7);
        assert(0 <= h <= 0xffff) by (nonlinear_arith)
            requires
                0 <= f.id <= 0x1fff,
                0 <= f.type_id <= 7,
                h == f.id * 8 + f.type_id,
        ;
        assert(p[o] == header[0] && p[o + 1] == header[1]);
        lemma_two_be_read(p, o, h);
        assert(h / 8 == f.id && h % 8 == f.type_id) by (nonlinear_arith)
            requires
                0 <= f.id,
                0 <= f.type_id <= 7,
                h == f.id * 8 + f.type_id,
        ;
        let pre2 = pre + header;
        assert(p =~= pre2 + body + (enc_children(fields.drop_first()) + post));
        lemma_parse_body_of_enc(p, pre2, enc_children(fields.drop_first()) + post, f);
        let pre3 = pre + enc_child(f);
        assert(p =~= pre3 + enc_children(fields.drop_first()) + post);
        lemma_parse_elems_of_enc(p, pre3, post, fields.drop_first());
        assert(o + 1 < p.len());
        assert(parse_body_at(p, o + 2, f.id, f.type_id) == (Some(f), body.len() as nat));
        assert(o + 2 + body.len() == pre3.len());
        assert(seq![f] + fields.drop_first() =~= fields);
    }
}

/// Parsing a whole payload that the encoder produced gives back the
/// canonical fields that went in.
proof fn lemma_parse_fields_of_enc(p: Seq<u8>, pre: Seq<u8>, fields: Seq<SpecField>)
    requires
        canonical_fields(fields),
        p == pre + enc_fields(fields),
    ensures
        parse_fields_at(p, pre.len() as int) == fields,
    decreases fields,
{
    let o = pre.len() as int;
    if fields.len() == 0 {
        assert(p =~= pre);
        assert(parse_fields_at(p, o) =~= Seq::<SpecField>::empty());
        assert(fields =~= Seq::<SpecField>::empty());
    } else {
        let f = fields[0];
        assert(canonical_field(f));
        let header = enc_header(f.id, f.type_id);
        let body = enc_value(f.value);
        assert(enc_field(f) =~= header + body);
        assert(enc_fields(fields) == enc_field(f) + enc_fields(fields.drop_first()));
        let h = f.id * 8 + f.type_id;
        assert(0 <= h <= 0xffff) by (nonlinear_arith)
            requires
                0 <= f.id <= 0x1fff,
                0 <= f.type_id <= 7,
                h == f.id * 8 + f.type_id,
        ;
        assert(p[o] == header[0] && p[o + 1] == header[1]);
        lemma_two_be_read(p, o, h);
        assert(h / 8 == f.id && h % 8 == f.type_id) by (nonlinear_arith)
            requires
                0 <= f.id,
                0 <= f.type_id <= 7,
                h == f.id * 8 + f.type_id,
        ;
        let pre2 = pre + header;
        let rest_fields = fields.drop_first();
        assert(p =~= pre2 + body + enc_fields(rest_fields));
        lemma_parse_body_of_enc(p, pre2, enc_fields(rest_fields), f);
        let pre3 = pre + enc_field(f);
        assert(p =~= pre3 + enc_fields(rest_fields));
        lemma_parse_fields_of_enc(p, pre3, rest_fields);
        assert(o + 1 < p.len());
        assert(parse_body_at(p, o + 2, f.id, f.type_id) == (Some(f), body.len() as nat));
        assert(o + 2 + body.len() == pre3.len());
        assert(seq![f] + rest_fields =~= fields);
    }
}

/// Checksum law: in every emitted frame the byte at index 4 is the 8-bit
/// wrapping sum of everything from the packet id to the end of the payload,
/// and the frame opens with the 0xAA 0xAA preamble.
pub proof fn lemma_frame_checksum(cmd: u16, packet_id: u16, payload: Seq<u8>)
    ensures
        envelope(cmd, packet_id, payload).len() == 9 + payload.len(),
        envelope(cmd, packet_id, payload)[0] == 0xaa,
        envelope(cmd, packet_id, payload)[1] == 0xaa,
        envelope(cmd, packet_id, payload)[4] == sum8(envelope(cmd, packet_id, payload).skip(5)),
{
    let env = envelope(cmd, packet_id, payload);
    let tail = two_be(packet_id as int) + two_be(cmd as int) + payload;
    assert(env.skip(5) =~= tail);
}

/// No field encodes to fewer than two bytes, so an empty encoding means an
/// empty field list.
proof fn lemma_enc_fields_empty(fields: Seq<SpecField>)
    requires
        enc_fields(fields).len() == 0,
    ensures
        fields =~= Seq::<SpecField>::empty(),
{
    if fields.len() > 0 {
        assert(enc_fields(fields) == enc_field(fields[0]) + enc_fields(fields.drop_first()));
        assert(enc_field(fields[0]).len() >= 2);
    }
}

/// The canonical frame built from a command, a packet id and its payloads.
pub open spec fn frame_of(cmd: u16, packet_id: u16, fields: Seq<SpecField>) -> SpecFrame {
    SpecFrame { cmd: cmd as int, packet_id: packet_id as int, payloads: fields }
}

/// A validated envelope around an encoded canonical payload classifies as a
/// successful parse of exactly the frame that was encoded.
proof fn lemma_classify_envelope(cmd: u16, packet_id: u16, fields: Seq<SpecField>)
    requires
        canonical_fields(fields),
        cmd != 0,
        cmd != 0xffff,
        cmd != 0x0024,
        enc_fields(fields).len() + 5 <= 0xffff,
    ensures
        classify(envelope(cmd, packet_id, enc_fields(fields))) == SpecEvent::Success(
            frame_of(cmd, packet_id, fields),
        ),
{
    let payload = enc_fields(fields);
    let env = envelope(cmd, packet_id, payload);
    let tail = two_be(packet_id as int) + two_be(cmd as int) + payload;
    assert(env.len() == 9 + payload.len());
    assert(env.skip(5) =~= tail);
    assert(env[4] == sum8(tail));
    assert(env[5] == two_be(packet_id as int)[0] && env[6] == two_be(packet_id as int)[1]);
    assert(env[7] == two_be(cmd as int)[0] && env[8] == two_be(cmd as int)[1]);
    lemma_two_be_read(env, 5, packet_id as int);
    lemma_two_be_read(env, 7, cmd as int);
    if payload.len() > 0 {
        assert(env.skip(9) =~= payload);
        assert(env.skip(9) =~= Seq::<u8>::empty() + enc_fields(fields));
        lemma_parse_fields_of_enc(env.skip(9), Seq::empty(), fields);
        assert(parse_payload_spec(env) == frame_of(cmd, packet_id, fields));
    } else {
        lemma_enc_fields_empty(fields);
        assert(parse_payload_spec(env) == frame_of(cmd, packet_id, fields));
    }
}

/// Draining a buffer that starts with one whole emitted frame yields the
/// frame's event and then whatever the remainder yields.
proof fn lemma_drain_frame_prefix(cmd: u16, packet_id: u16, fields: Seq<SpecField>, rest: Seq<u8>)
    requires
        canonical_fields(fields),
        cmd != 0,
        cmd != 0xffff,
        cmd != 0x0024,
        enc_fields(fields).len() + 5 <= 0xffff,
    ensures
        drain(envelope(cmd, packet_id, enc_fields(fields)) + rest).0 == seq![
            SpecEvent::Success(frame_of(cmd, packet_id, fields)),
        ] + drain(rest).0,
        drain(envelope(cmd, packet_id, enc_fields(fields)) + rest).1 == drain(rest).1,
{
    let payload = enc_fields(fields);
    let env = envelope(cmd, packet_id, payload);
    let buf = env + rest;
    assert(env.len() == 9 + payload.len());
    assert(buf.len() >= 9);
    assert(buf[0] == 0xaa && buf[1] == 0xaa);
    assert(find_preamble(buf) == Some(0nat));
    assert(buf[2] == two_be(payload.len() as int + 5)[0] && buf[3] == two_be(
        payload.len() as int + 5,
    )[1]);
    lemma_two_be_read(buf, 2, payload.len() as int + 5);
    let pl = payload.len() as int + 5;
    assert(buf.len() >= pl + 4);
    assert(buf.subrange(0, pl + 4) =~= env);
    assert(buf.skip(pl + 4) =~= rest);
    lemma_classify_envelope(cmd, packet_id, fields);
}

/// Round trip: a canonical command frame, encoded into its stuffed envelope
/// and fed back through the un-stuffing and draining pass, decodes to
/// exactly one successful event carrying the same frame, with nothing left
/// over. Frames whose envelope would put an 0xAA directly before a 0x55 are
/// outside the law: the un-stuffing pass strips such a 0x55 as if it had
/// been inserted by the encoder.
pub proof fn lemma_round_trip(cmd: u16, packet_id: u16, fields: Seq<SpecField>)
    requires
        canonical_fields(fields),
        cmd != 0,
        cmd != 0xffff,
        cmd != 0x0024,
        enc_fields(fields).len() + 5 <= 0xffff,
        no_aa55(envelope(cmd, packet_id, enc_fields(fields))),
    ensures
        drain(unstuff(stuff(envelope(cmd, packet_id, enc_fields(fields))))) == (
            seq![SpecEvent::Success(frame_of(cmd, packet_id, fields))],
            Seq::<u8>::empty(),
        ),
{
    let env = envelope(cmd, packet_id, enc_fields(fields));
    crate::wire::lemma_stuffing_inverse(env);
    lemma_drain_frame_prefix(cmd, packet_id, fields, Seq::empty());
    assert(env + Seq::<u8>::empty() =~= env);
    assert(drain(Seq::<u8>::empty()) == (Seq::<SpecEvent>::empty(), Seq::<u8>::empty()));
    assert(seq![SpecEvent::Success(frame_of(cmd, packet_id, fields))] + Seq::<
        SpecEvent,
    >::empty() =~= seq![SpecEvent::Success(frame_of(cmd, packet_id, fields))]);
}

/// Two frames back to back: feeding the concatenation of two stuffed
/// envelopes through the un-stuffing and draining pass yields exactly the
/// two successful events, in order, with nothing left over.
pub proof fn lemma_two_frame_stream(
    cmd1: u16,
    packet_id1: u16,
    fields1: Seq<SpecField>,
    cmd2: u16,
    packet_id2: u16,
    fields2: Seq<SpecField>,
)
    requires
        canonical_fields(fields1),
        canonical_fields(fields2),
        cmd1 != 0 && cmd1 != 0xffff && cmd1 != 0x0024,
        cmd2 != 0 && cmd2 != 0xffff && cmd2 != 0x0024,
        enc_fields(fields1).len() + 5 <= 0xffff,
        enc_fields(fields2).len() + 5 <= 0xffff,
        no_aa55(envelope(cmd1, packet_id1, enc_fields(fields1))),
        no_aa55(envelope(cmd2, packet_id2, enc_fields(fields2))),
    ensures
        drain(
            unstuff(
                stuff(envelope(cmd1, packet_id1, enc_fields(fields1))) + stuff(
                    envelope(cmd2, packet_id2, enc_fields(fields2)),
                ),
            ),
        ) == (
            seq![
                SpecEvent::Success(frame_of(cmd1, packet_id1, fields1)),
                SpecEvent::Success(frame_of(cmd2, packet_id2, fields2)),
            ],
            Seq::<u8>::empty(),
        ),
{
    let env1 = envelope(cmd1, packet_id1, enc_fields(fields1));
    let env2 = envelope(cmd2, packet_id2, enc_fields(fields2));
    crate::wire::lemma_stuffing_inverse(env1);
    crate::wire::lemma_stuffing_inverse(env2);
    assert(env2.len() >= 9);
    assert(stuff(env2)[0] == env2[0]);
    assert(env2[0] == 0xaa);
    crate::wire::lemma_unstuff_concat(stuff(env1), stuff(env2));
    lemma_drain_frame_prefix(cmd1, packet_id1, fields1, env2);
    lemma_round_trip(cmd2, packet_id2, fields2);
    assert(drain(env2) == (
        seq![SpecEvent::Success(frame_of(cmd2, packet_id2, fields2))],
        Seq::<u8>::empty(),
    ));
    assert(seq![SpecEvent::Success(frame_of(cmd1, packet_id1, fields1))] + seq![
        SpecEvent::Success(frame_of(cmd2, packet_id2, fields2)),
    ] =~= seq![
        SpecEvent::Success(frame_of(cmd1, packet_id1, fields1)),
        SpecEvent::Success(frame_of(cmd2, packet_id2, fields2)),
    ]);
}

/// Every successfully decoded frame carries a command word strictly between
/// the reserved sentinels: 1 <= cmd <= 0xFFFE.
pub proof fn lemma_success_cmd_range(frame: Seq<u8>)
    ensures
        match classify(frame) {
            SpecEvent::Success(f) => 1 <= f.cmd <= 0xfffe,
            _ => true,
        },
{
}

/// The concatenation of a list of chunks.
pub open spec fn concat_all(chunks: Seq<Seq<u8>>) -> Seq<u8>
    decreases chunks.len(),
{
    if chunks.len() == 0 {
        Seq::empty()
    } else {
        chunks[0] + concat_all(chunks.drop_first())
    }
}

/// What a decoder that starts with `buf0` buffered yields over a whole list
/// of chunks, one feed per chunk: all events in order, and the final
/// buffered bytes.
pub open spec fn feed_all(chunks: Seq<Seq<u8>>, buf0: Seq<u8>) -> (Seq<SpecEvent>, Seq<u8>)
    decreases chunks.len(),
{
    if chunks.len() == 0 {
        (Seq::empty(), buf0)
    } else {
        let step = drain(unstuff(buf0 + chunks[0]));
        let rest = feed_all(chunks.drop_first(), step.1);
        (step.0 + rest.0, rest.1)
    }
}

/// The events that are not `Incomplete`, in order.
pub open spec fn non_incomplete(evs: Seq<SpecEvent>) -> Seq<SpecEvent>
    decreases evs.len(),
{
    if evs.len() == 0 {
        Seq::empty()
    } else if evs[0] is Incomplete {
        non_incomplete(evs.drop_first())
    } else {
        seq![evs[0]] + non_incomplete(evs.drop_first())
    }
}

pub proof fn lemma_non_incomplete_one(e: SpecEvent)
    ensures
        non_incomplete(seq![e]) == if e is Incomplete {
            Seq::<SpecEvent>::empty()
        } else {
            seq![e]
        },
{
    assert(seq![e][0] == e);
    assert(seq![e].drop_first() =~= Seq::<SpecEvent>::empty());
    assert(non_incomplete(Seq::<SpecEvent>::empty()) =~= Seq::<SpecEvent>::empty());
    if !(e is Incomplete) {
        assert(seq![e] + Seq::<SpecEvent>::empty() =~= seq![e]);
    }
}

pub proof fn lemma_non_incomplete_concat(a: Seq<SpecEvent>, b: Seq<SpecEvent>)
    ensures
        non_incomplete(a + b) == non_incomplete(a) + non_incomplete(b),
    decreases a,
{
    if a.len() == 0 {
        assert(a + b =~= b);
        assert(non_incomplete(a) + non_incomplete(b) =~= non_incomplete(b));
    } else {
        lemma_non_incomplete_concat(a.drop_first(), b);
        assert((a + b).drop_first() =~= a.drop_first() + b);
        assert((a + b)[0] == a[0]);
        if !(a[0] is Incomplete) {
            assert(seq![a[0]] + (non_incomplete(a.drop_first()) + non_incomplete(b)) =~= (seq![
                a[0],
            ] + non_incomplete(a.drop_first())) + non_incomplete(b));
        }
    }
}

/// Draining a proper prefix of an emitted frame yields at most an
/// `Incomplete` and keeps the prefix buffered.
proof fn lemma_drain_partial(cmd: u16, packet_id: u16, fields: Seq<SpecField>, k: int)
    requires
        canonical_fields(fields),
        cmd != 0,
        cmd != 0xffff,
        cmd != 0x0024,
        enc_fields(fields).len() + 5 <= 0xffff,
        0 <= k < envelope(cmd, packet_id, enc_fields(fields)).len(),
    ensures
        drain(envelope(cmd, packet_id, enc_fields(fields)).take(k)) == if k == 0 {
            (Seq::<SpecEvent>::empty(), Seq::<u8>::empty())
        } else {
            (
                seq![SpecEvent::Incomplete],
                envelope(cmd, packet_id, enc_fields(fields)).take(k),
            )
        },
{
    let payload = enc_fields(fields);
    let env = envelope(cmd, packet_id, payload);
    let b = env.take(k);
    if k == 0 {
        assert(b.len() == 0);
    } else if k < 9 {
    } else {
        assert(b[0] == 0xaa && b[1] == 0xaa);
        assert(find_preamble(b) == Some(0nat));
        assert(b[2] == two_be(payload.len() as int + 5)[0] && b[3] == two_be(
            payload.len() as int + 5,
        )[1]);
        lemma_two_be_read(b, 2, payload.len() as int + 5);
        let pl = payload.len() as int + 5;
        assert(b.len() == k < pl + 4);
        assert(b.skip(0) =~= b);
    }
}

/// Draining one whole emitted frame yields its event alone and empties the
/// buffer.
proof fn lemma_drain_whole(cmd: u16, packet_id: u16, fields: Seq<SpecField>)
    requires
        canonical_fields(fields),
        cmd != 0,
        cmd != 0xffff,
        cmd != 0x0024,
        enc_fields(fields).len() + 5 <= 0xffff,
    ensures
        drain(envelope(cmd, packet_id, enc_fields(fields))) == (
            seq![SpecEvent::Success(frame_of(cmd, packet_id, fields))],
            Seq::<u8>::empty(),
        ),
{
    let env = envelope(cmd, packet_id, enc_fields(fields));
    lemma_drain_frame_prefix(cmd, packet_id, fields, Seq::empty());
    assert(env + Seq::<u8>::empty() =~= env);
    assert(drain(Seq::<u8>::empty()) == (Seq::<SpecEvent>::empty(), Seq::<u8>::empty()));
    assert(seq![SpecEvent::Success(frame_of(cmd, packet_id, fields))] + Seq::<
        SpecEvent,
    >::empty() =~= seq![SpecEvent::Success(frame_of(cmd, packet_id, fields))]);
}

/// Feeding nothing but empty chunks into an empty decoder yields nothing.
proof fn lemma_feed_all_drained(chunks: Seq<Seq<u8>>)
    requires
        concat_all(chunks) == Seq::<u8>::empty(),
    ensures
        feed_all(chunks, Seq::empty()) == (Seq::<SpecEvent>::empty(), Seq::<u8>::empty()),
    decreases chunks.len(),
{
    if chunks.len() > 0 {
        assert(chunks[0].len() == 0) by {
            assert(concat_all(chunks) == chunks[0] + concat_all(chunks.drop_first()));
        }
        assert(concat_all(chunks.drop_first()) =~= Seq::<u8>::empty());
        lemma_feed_all_drained(chunks.drop_first());
        assert(Seq::<u8>::empty() + chunks[0] =~= Seq::<u8>::empty());
        assert(unstuff(Seq::<u8>::empty()) == Seq::<u8>::empty());
        assert(drain(Seq::<u8>::empty()) == (Seq::<SpecEvent>::empty(), Seq::<u8>::empty()));
        assert(Seq::<SpecEvent>::empty() + Seq::<SpecEvent>::empty() =~= Seq::<
            SpecEvent,
        >::empty());
    }
}

/// The induction behind the fragmentation law: with the first `j` stuffed
/// bytes already received (and their source bytes buffered), feeding the
/// rest in any chunking yields exactly one successful event and drains the
/// buffer.
proof fn lemma_feed_rest(
    cmd: u16,
    packet_id: u16,
    fields: Seq<SpecField>,
    chunks: Seq<Seq<u8>>,
    j: int,
)
    requires
        canonical_fields(fields),
        cmd != 0,
        cmd != 0xffff,
        cmd != 0x0024,
        enc_fields(fields).len() + 5 <= 0xffff,
        no_aa55(envelope(cmd, packet_id, enc_fields(fields))),
        0 <= j < stuff(envelope(cmd, packet_id, enc_fields(fields))).len(),
        concat_all(chunks) == stuff(envelope(cmd, packet_id, enc_fields(fields))).skip(j),
    ensures
        ({
            let env = envelope(cmd, packet_id, enc_fields(fields));
            let r = feed_all(chunks, env.take(crate::wire::src_len(env, j)));
            non_incomplete(r.0) == seq![SpecEvent::Success(frame_of(cmd, packet_id, fields))]
                && r.1 == Seq::<u8>::empty()
        }),
    decreases chunks.len(),
{
    let env = envelope(cmd, packet_id, enc_fields(fields));
    let s = stuff(env);
    crate::wire::lemma_unstuff_stuff_take(env, j);
    let k = crate::wire::src_len(env, j);
    let buf0 = env.take(k);
    if chunks.len() == 0 {
        assert(concat_all(chunks) =~= Seq::<u8>::empty());
        assert(s.skip(j).len() > 0);
        assert(false);
    }
    let c = chunks[0];
    assert(concat_all(chunks) == c + concat_all(chunks.drop_first()));
    let j2 = j + c.len();
    assert(j2 <= s.len()) by {
        assert(c.len() <= concat_all(chunks).len());
        assert(concat_all(chunks).len() == s.len() - j);
    }
    assert(s.take(j) + c =~= s.take(j2)) by {
        assert(forall|i: int| 0 <= i < c.len() ==> c[i] == s.skip(j)[i]);
    }
    crate::wire::lemma_unstuff_absorb(s.take(j), c);
    assert(unstuff(buf0 + c) == unstuff(s.take(j2)));
    crate::wire::lemma_unstuff_stuff_take(env, j2);
    let k2 = crate::wire::src_len(env, j2);
    let step = drain(unstuff(buf0 + c));
    if j2 < s.len() {
        lemma_drain_partial(cmd, packet_id, fields, k2);
        assert(step.1 == env.take(k2)) by {
            if k2 == 0 {
                assert(env.take(0) =~= Seq::<u8>::empty());
            }
        }
        assert(non_incomplete(step.0) =~= Seq::<SpecEvent>::empty()) by {
            if k2 > 0 {
                assert(step.0 == seq![SpecEvent::Incomplete]);
                assert(seq![SpecEvent::Incomplete][0] is Incomplete);
                assert(seq![SpecEvent::Incomplete].drop_first() =~= Seq::<SpecEvent>::empty());
                assert(non_incomplete(seq![SpecEvent::Incomplete]) == non_incomplete(
                    Seq::<SpecEvent>::empty(),
                ));
            } else {
                assert(step.0 == Seq::<SpecEvent>::empty());
            }
        }
        assert(concat_all(chunks.drop_first()) =~= s.skip(j2)) by {
            assert(forall|i: int| 0 <= i < concat_all(chunks.drop_first()).len() ==> concat_all(
                chunks.drop_first(),
            )[i] == s.skip(j)[c.len() + i]);
        }
        lemma_feed_rest(cmd, packet_id, fields, chunks.drop_first(), j2);
        let rest = feed_all(chunks.drop_first(), env.take(k2));
        lemma_non_incomplete_concat(step.0, rest.0);
        assert(Seq::<SpecEvent>::empty() + seq![
            SpecEvent::Success(frame_of(cmd, packet_id, fields)),
        ] =~= seq![SpecEvent::Success(frame_of(cmd, packet_id, fields))]);
    } else {
        assert(j2 == s.len());
        assert(k2 == env.len());
        assert(env.take(env.len() as int) =~= env);
        lemma_drain_whole(cmd, packet_id, fields);
        assert(step == (
            seq![SpecEvent::Success(frame_of(cmd, packet_id, fields))],
            Seq::<u8>::empty(),
        ));
        assert(concat_all(chunks.drop_first()) =~= Seq::<u8>::empty()) by {
            assert(concat_all(chunks).len() == c.len() + concat_all(chunks.drop_first()).len());
        }
        lemma_feed_all_drained(chunks.drop_first());
        let rest = feed_all(chunks.drop_first(), Seq::<u8>::empty());
        lemma_non_incomplete_concat(step.0, rest.0);
        assert(non_incomplete(seq![SpecEvent::Success(frame_of(cmd, packet_id, fields))])
            =~= seq![SpecEvent::Success(frame_of(cmd, packet_id, fields))]) by {
            assert(seq![SpecEvent::Success(frame_of(cmd, packet_id, fields))].drop_first()
                =~= Seq::<SpecEvent>::empty());
        }
        assert(seq![SpecEvent::Success(frame_of(cmd, packet_id, fields))] + Seq::<
            SpecEvent,
        >::empty() =~= seq![SpecEvent::Success(frame_of(cmd, packet_id, fields))]);
    }
}

/// Fragmentation law: however an emitted frame is sliced into successive
/// chunks, a fresh decoder fed those chunks yields exactly one successful
/// event — the frame itself — plus incomplete notices, and ends with an
/// empty buffer.
pub proof fn lemma_fragmented_round_trip(
    cmd: u16,
    packet_id: u16,
    fields: Seq<SpecField>,
    chunks: Seq<Seq<u8>>,
)
    requires
        canonical_fields(fields),
        cmd != 0,
        cmd != 0xffff,
        cmd != 0x0024,
        enc_fields(fields).len() + 5 <= 0xffff,
        no_aa55(envelope(cmd, packet_id, enc_fields(fields))),
        concat_all(chunks) == stuff(envelope(cmd, packet_id, enc_fields(fields))),
    ensures
        non_incomplete(feed_all(chunks, Seq::empty()).0) == seq![
            SpecEvent::Success(frame_of(cmd, packet_id, fields)),
        ],
        feed_all(chunks, Seq::empty()).1 == Seq::<u8>::empty(),
{
    let env = envelope(cmd, packet_id, enc_fields(fields));
    let s = stuff(env);
    assert(env.len() >= 9);
    crate::wire::lemma_stuffing_inverse(env);
    assert(s.len() >= 1) by {
        crate::wire::lemma_unstuff_len(s);
    }
    assert(s.skip(0) =~= s);
    assert(crate::wire::src_len(env, 0) == 0);
    assert(env.take(0) =~= Seq::<u8>::empty());
    lemma_feed_rest(cmd, packet_id, fields, chunks, 0);
}

/// The induction behind the two-frame fragmentation law: with the first `j`
/// bytes of the first stuffed frame already received, feeding the rest of
/// both frames in any chunking yields exactly the two successful events and
/// drains the buffer.
#[verifier::rlimit(60)]
proof fn lemma_feed_two_rest(
    cmd1: u16,
    packet_id1: u16,
    fields1: Seq<SpecField>,
    cmd2: u16,
    packet_id2: u16,
    fields2: Seq<SpecField>,
    chunks: Seq<Seq<u8>>,
    j: int,
)
    requires
        canonical_fields(fields1),
        canonical_fields(fields2),
        cmd1 != 0 && cmd1 != 0xffff && cmd1 != 0x0024,
        cmd2 != 0 && cmd2 != 0xffff && cmd2 != 0x0024,
        enc_fields(fields1).len() + 5 <= 0xffff,
        enc_fields(fields2).len() + 5 <= 0xffff,
        no_aa55(envelope(cmd1, packet_id1, enc_fields(fields1))),
        no_aa55(envelope(cmd2, packet_id2, enc_fields(fields2))),
        0 <= j < stuff(envelope(cmd1, packet_id1, enc_fields(fields1))).len(),
        concat_all(chunks) == stuff(envelope(cmd1, packet_id1, enc_fields(fields1))).skip(j)
            + stuff(envelope(cmd2, packet_id2, enc_fields(fields2))),
    ensures
        ({
            let env1 = envelope(cmd1, packet_id1, enc_fields(fields1));
            let r = feed_all(chunks, env1.take(crate::wire::src_len(env1, j)));
            non_incomplete(r.0) == seq![
                SpecEvent::Success(frame_of(cmd1, packet_id1, fields1)),
                SpecEvent::Success(frame_of(cmd2, packet_id2, fields2)),
            ] && r.1 == Seq::<u8>::empty()
        }),
    decreases chunks.len(),
{
    let env1 = envelope(cmd1, packet_id1, enc_fields(fields1));
    let env2 = envelope(cmd2, packet_id2, enc_fields(fields2));
    let s1 = stuff(env1);
    let s2 = stuff(env2);
    let ev1 = SpecEvent::Success(frame_of(cmd1, packet_id1, fields1));
    let ev2 = SpecEvent::Success(frame_of(cmd2, packet_id2, fields2));
    crate::wire::lemma_stuffing_inverse(env1);
    crate::wire::lemma_stuffing_inverse(env2);
    crate::wire::lemma_unstuff_stuff_take(env1, j);
    let k = crate::wire::src_len(env1, j);
    let buf0 = env1.take(k);
    if chunks.len() == 0 {
        assert(concat_all(chunks) =~= Seq::<u8>::empty());
        assert(s1.skip(j).len() > 0);
        assert(false);
    }
    let c = chunks[0];
    assert(concat_all(chunks) == c + concat_all(chunks.drop_first()));
    let stream = s1.skip(j) + s2;
    assert(c.len() <= stream.len());
    assert(forall|i: int| 0 <= i < c.len() ==> c[i] == stream[i]);
    assert(forall|i: int| 0 <= i < concat_all(chunks.drop_first()).len() ==> concat_all(
        chunks.drop_first(),
    )[i] == stream[c.len() + i]);
    let j2 = j + c.len();
    let step = drain(unstuff(buf0 + c));
    if j2 < s1.len() {
        assert(s1.take(j) + c =~= s1.take(j2));
        crate::wire::lemma_unstuff_absorb(s1.take(j), c);
        assert(unstuff(buf0 + c) == unstuff(s1.take(j2)));
        crate::wire::lemma_unstuff_stuff_take(env1, j2);
        let k2 = crate::wire::src_len(env1, j2);
        lemma_drain_partial(cmd1, packet_id1, fields1, k2);
        assert(step.1 == env1.take(k2)) by {
            if k2 == 0 {
                assert(env1.take(0) =~= Seq::<u8>::empty());
            }
        }
        assert(non_incomplete(step.0) =~= Seq::<SpecEvent>::empty()) by {
            if k2 > 0 {
                assert(step.0 == seq![SpecEvent::Incomplete]);
                assert(seq![SpecEvent::Incomplete][0] is Incomplete);
                assert(seq![SpecEvent::Incomplete].drop_first() =~= Seq::<SpecEvent>::empty());
                assert(non_incomplete(seq![SpecEvent::Incomplete]) == non_incomplete(
                    Seq::<SpecEvent>::empty(),
                ));
            } else {
                assert(step.0 == Seq::<SpecEvent>::empty());
            }
        }
        assert(concat_all(chunks.drop_first()) =~= s1.skip(j2) + s2) by {
            assert(forall|i: int| 0 <= i < s1.skip(j2).len() ==> s1.skip(j2)[i] == stream[c.len()
                + i]);
            assert(forall|i: int| 0 <= i < s2.len() ==> s2[i] == stream[c.len() + s1.skip(
                j2,
            ).len() + i]);
        }
        lemma_feed_two_rest(
            cmd1,
            packet_id1,
            fields1,
            cmd2,
            packet_id2,
            fields2,
            chunks.drop_first(),
            j2,
        );
        let rest = feed_all(chunks.drop_first(), env1.take(k2));
        lemma_non_incomplete_concat(step.0, rest.0);
        assert(Seq::<SpecEvent>::empty() + seq![ev1, ev2] =~= seq![ev1, ev2]);
    } else {
        let j2b = j2 - s1.len();
        assert(0 <= j2b <= s2.len());
        assert(s1.take(j) + c =~= s1 + s2.take(j2b)) by {
            assert(forall|i: int| 0 <= i < s1.skip(j).len() ==> c[i] == s1.skip(j)[i]);
            assert(forall|i: int| s1.skip(j).len() <= i < c.len() ==> c[i] == s2[i - s1.skip(
                j,
            ).len()]);
        }
        crate::wire::lemma_unstuff_absorb(s1.take(j), c);
        assert(unstuff(buf0 + c) == unstuff(s1 + s2.take(j2b)));
        if j2b >= 1 {
            assert(env2.len() >= 9);
            assert(s2[0] == env2[0]);
            assert(env2[0] == 0xaa);
            assert(s2.take(j2b)[0] == s2[0]);
        }
        crate::wire::lemma_unstuff_concat(s1, s2.take(j2b));
        crate::wire::lemma_unstuff_stuff_take(env2, j2b);
        let k2b = crate::wire::src_len(env2, j2b);
        assert(unstuff(s1 + s2.take(j2b)) == env1 + env2.take(k2b));
        lemma_drain_frame_prefix(cmd1, packet_id1, fields1, env2.take(k2b));
        if j2b < s2.len() {
            lemma_drain_partial(cmd2, packet_id2, fields2, k2b);
            assert(step.1 == env2.take(k2b)) by {
                if k2b == 0 {
                    assert(env2.take(0) =~= Seq::<u8>::empty());
                    assert(drain(Seq::<u8>::empty()) == (
                        Seq::<SpecEvent>::empty(),
                        Seq::<u8>::empty(),
                    ));
                }
            }
            assert(non_incomplete(step.0) =~= seq![ev1]) by {
                lemma_non_incomplete_one(ev1);
                if k2b > 0 {
                    assert(step.0 == seq![ev1] + seq![SpecEvent::Incomplete]);
                    lemma_non_incomplete_concat(seq![ev1], seq![SpecEvent::Incomplete]);
                    lemma_non_incomplete_one(SpecEvent::Incomplete);
                    assert(seq![ev1] + Seq::<SpecEvent>::empty() =~= seq![ev1]);
                } else {
                    assert(step.0 == seq![ev1] + Seq::<SpecEvent>::empty());
                    assert(step.0 =~= seq![ev1]);
                }
            }
            assert(concat_all(chunks.drop_first()) =~= s2.skip(j2b)) by {
                assert(forall|i: int| 0 <= i < s2.skip(j2b).len() ==> s2.skip(j2b)[i]
                    == stream[c.len() + i]);
            }
            lemma_feed_rest(cmd2, packet_id2, fields2, chunks.drop_first(), j2b);
            let rest = feed_all(chunks.drop_first(), env2.take(k2b));
            lemma_non_incomplete_concat(step.0, rest.0);
            assert(seq![ev1] + seq![ev2] =~= seq![ev1, ev2]);
        } else {
            assert(j2b == s2.len());
            assert(k2b == env2.len());
            assert(env2.take(env2.len() as int) =~= env2);
            lemma_drain_whole(cmd2, packet_id2, fields2);
            assert(step.0 == seq![ev1] + seq![ev2] && step.1 == Seq::<u8>::empty());
            assert(concat_all(chunks.drop_first()) =~= Seq::<u8>::empty()) by {
                assert(concat_all(chunks).len() == c.len() + concat_all(
                    chunks.drop_first(),
                ).len());
            }
            lemma_feed_all_drained(chunks.drop_first());
            let rest = feed_all(chunks.drop_first(), Seq::<u8>::empty());
            lemma_non_incomplete_concat(step.0, rest.0);
            assert(step.0 =~= seq![ev1, ev2]);
            assert(non_incomplete(seq![ev1, ev2]) =~= seq![ev1, ev2]) by {
                assert(seq![ev1, ev2] =~= seq![ev1] + seq![ev2]);
                lemma_non_incomplete_concat(seq![ev1], seq![ev2]);
                lemma_non_incomplete_one(ev1);
                lemma_non_incomplete_one(ev2);
            }
            assert(seq![ev1, ev2] + Seq::<SpecEvent>::empty() =~= seq![ev1, ev2]);
        }
    }
}

/// Two-frame fragmentation law: however the concatenation of two emitted
/// frames is sliced into successive chunks, a fresh decoder fed those chunks
/// yields exactly the two successful events, in order, plus incomplete
/// notices, and ends with an empty buffer.
pub proof fn lemma_fragmented_two_frame_stream(
    cmd1: u16,
    packet_id1: u16,
    fields1: Seq<SpecField>,
    cmd2: u16,
    packet_id2: u16,
    fields2: Seq<SpecField>,
    chunks: Seq<Seq<u8>>,
)
    requires
        canonical_fields(fields1),
        canonical_fields(fields2),
        cmd1 != 0 && cmd1 != 0xffff && cmd1 != 0x0024,
        cmd2 != 0 && cmd2 != 0xffff && cmd2 != 0x0024,
        enc_fields(fields1).len() + 5 <= 0xffff,
        enc_fields(fields2).len() + 5 <= 0xffff,
        no_aa55(envelope(cmd1, packet_id1, enc_fields(fields1))),
        no_aa55(envelope(cmd2, packet_id2, enc_fields(fields2))),
        concat_all(chunks) == stuff(envelope(cmd1, packet_id1, enc_fields(fields1))) + stuff(
            envelope(cmd2, packet_id2, enc_fields(fields2)),
        ),
    ensures
        non_incomplete(feed_all(chunks, Seq::empty()).0) == seq![
            SpecEvent::Success(frame_of(cmd1, packet_id1, fields1)),
            SpecEvent::Success(frame_of(cmd2, packet_id2, fields2)),
        ],
        feed_all(chunks, Seq::empty()).1 == Seq::<u8>::empty(),
{
    let env1 = envelope(cmd1, packet_id1, enc_fields(fields1));
    let s1 = stuff(env1);
    assert(env1.len() >= 9);
    crate::wire::lemma_stuffing_inverse(env1);
    assert(s1.len() >= 1) by {
        crate::wire::lemma_unstuff_len(s1);
    }
    assert(s1.skip(0) =~= s1);
    assert(crate::wire::src_len(env1, 0) == 0);
    assert(env1.take(0) =~= Seq::<u8>::empty());
    lemma_feed_two_rest(cmd1, packet_id1, fields1, cmd2, packet_id2, fields2, chunks, 0);
}

/// Serial generator law: starting from zero the counter produces 1000, then
/// counts up to 0xFFFE, wraps back to 1000, and never yields 0 or 0xFFFF.
pub proof fn lemma_serial_progression()
    ensures
        next_serial(0) == 1000,
        forall|p: u16| 1000 <= p < 0xfffe ==> #[trigger] next_serial(p) == p + 1,
        next_serial(0xfffe) == 1000,
        forall|p: u16| #[trigger] next_serial(p) != 0 && next_serial(p) != 0xffff,
        forall|p: u16| 1000 <= #[trigger] next_serial(p) <= 0xfffe,
{
}

} // verus!
