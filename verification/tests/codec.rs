use quec_ttlv::decode::{DecodeError, DecodeResult, DecodeTools};
use quec_ttlv::encode::EncodeTools;
use quec_ttlv::model::{
    DoubleNeedValue, TTLVData, TtlvCommandModel, TtlvTransparentModel,
};

fn encode_with_serial(model: &TtlvCommandModel) -> Vec<u8> {
    let mut tools = EncodeTools::new();
    tools.start_encode(model).get_cmd_data().clone()
}

#[test]
fn read_command_bytes() {
    let mut model = TtlvCommandModel::new(0x0011, 0);
    model.add_payload(TTLVData::new(0x1001, 0, false));
    let bytes = encode_with_serial(&model);
    assert_eq!(
        bytes,
        vec![0xAA, 0xAA, 0x00, 0x07, 0x0D, 0x03, 0xE8, 0x00, 0x11, 0x10, 0x01]
    );
}

#[test]
fn random_challenge_bytes() {
    let model = TtlvCommandModel::new(0x7032, 0);
    let bytes = encode_with_serial(&model);
    assert_eq!(bytes, vec![0xAA, 0xAA, 0x00, 0x05, 0x8D, 0x03, 0xE8, 0x70, 0x32]);
}

#[test]
fn empty_payload_encodes_to_nine_bytes_and_round_trips() {
    let model = TtlvCommandModel::new(0x7032, 0);
    let bytes = encode_with_serial(&model);
    assert_eq!(bytes.len(), 9);
    let mut decoder = DecodeTools::new();
    let results = decoder.packet_slice(&bytes);
    assert_eq!(results.len(), 1);
    match &results[0] {
        DecodeResult::Success(frame) => {
            assert_eq!(frame.cmd, 0x7032);
            assert_eq!(frame.packet_id, 1000);
            assert_eq!(frame.payloads.len(), 0);
        }
        other => panic!("expected Success, got {:?}", other),
    }
}

#[test]
fn boolean_style_integer_field_descriptor() {
    let mut model = TtlvCommandModel::new(0x7016, 1001);
    model.add_payload(TTLVData::new(1, 2, true).with_integer(1));
    let mut tools = EncodeTools::new();
    let result = tools.start_encode_with_packet_id(&model, true);
    let bytes = result.get_cmd_data();
    // envelope: AA AA len len crc pid pid cmd cmd, then header 00 0A,
    // descriptor 0x00, magnitude 0x01
    assert_eq!(&bytes[9..], &[0x00, 0x0A, 0x00, 0x01]);
    assert_eq!(result.get_cmd(), 0x7016);
    assert_eq!(result.get_packet_id(), 1001);
    assert_eq!(result.get_cmd_key(), 0x7016_03E9);
}

#[test]
fn fragmented_decode() {
    let mut decoder = DecodeTools::new();
    let first = decoder.packet_slice(&[0xAA, 0xAA, 0x00, 0x05]);
    assert_eq!(first.len(), 1);
    assert!(matches!(first[0], DecodeResult::Incomplete));
    let second = decoder.packet_slice(&[0x8D, 0x03, 0xE8, 0x70, 0x32]);
    assert_eq!(second.len(), 1);
    match &second[0] {
        DecodeResult::Success(frame) => {
            assert_eq!(frame.cmd, 0x7032);
            assert_eq!(frame.packet_id, 1000);
            assert_eq!(frame.payloads.len(), 0);
        }
        other => panic!("expected Success, got {:?}", other),
    }
}

#[test]
fn byte_by_byte_decode_yields_one_success() {
    let mut model = TtlvCommandModel::new(0x7016, 0);
    model.add_payload(TTLVData::new(3, 3, true).with_binary(vec![1, 2, 3]));
    let bytes = encode_with_serial(&model);
    let mut decoder = DecodeTools::new();
    let mut successes = 0;
    for b in &bytes {
        for r in decoder.packet_slice(&[*b]) {
            match r {
                DecodeResult::Success(frame) => {
                    successes += 1;
                    assert_eq!(frame.cmd, 0x7016);
                }
                DecodeResult::Incomplete => {}
                other => panic!("unexpected event {:?}", other),
            }
        }
    }
    assert_eq!(successes, 1);
}

#[test]
fn two_frames_in_one_chunk() {
    let model1 = TtlvCommandModel::new(0x7032, 0);
    let mut model2 = TtlvCommandModel::new(0x7016, 0);
    model2.add_payload(TTLVData::new(1, 2, true).with_integer(42));
    let mut tools = EncodeTools::new();
    let mut stream = tools.start_encode(&model1).get_cmd_data().clone();
    stream.extend_from_slice(tools.start_encode(&model2).get_cmd_data());
    let mut decoder = DecodeTools::new();
    let results = decoder.packet_slice(&stream);
    assert_eq!(results.len(), 2);
    match (&results[0], &results[1]) {
        (DecodeResult::Success(f1), DecodeResult::Success(f2)) => {
            assert_eq!(f1.cmd, 0x7032);
            assert_eq!(f1.packet_id, 1000);
            assert_eq!(f2.cmd, 0x7016);
            assert_eq!(f2.packet_id, 1001);
            assert_eq!(f2.payloads[0].as_integer(), Some(42));
        }
        other => panic!("expected two successes, got {:?}", other),
    }
}

#[test]
fn two_frames_byte_by_byte() {
    let mut model1 = TtlvCommandModel::new(0x7032, 0);
    model1.add_payload(TTLVData::new(9, 3, true).with_binary(vec![0xAA, 0xAA, 0x11]));
    let model2 = TtlvCommandModel::new(0x7037, 0);
    let mut tools = EncodeTools::new();
    let mut stream = tools.start_encode(&model1).get_cmd_data().clone();
    stream.extend_from_slice(tools.start_encode(&model2).get_cmd_data());
    let mut decoder = DecodeTools::new();
    let mut commands = Vec::new();
    for b in &stream {
        for r in decoder.packet_slice(&[*b]) {
            match r {
                DecodeResult::Success(frame) => commands.push(frame.cmd),
                DecodeResult::Incomplete => {}
                other => panic!("unexpected event {:?}", other),
            }
        }
    }
    assert_eq!(commands, vec![0x7032, 0x7037]);
}

#[test]
fn crc_error_then_clean_recovery() {
    let model = TtlvCommandModel::new(0x7032, 0);
    let mut bytes = encode_with_serial(&model);
    bytes[4] ^= 0xFF;
    let mut decoder = DecodeTools::new();
    let results = decoder.packet_slice(&bytes);
    assert_eq!(results.len(), 1);
    assert!(matches!(results[0], DecodeResult::Error(DecodeError::CrcMismatch)));
    // the decoder resumes cleanly on the next frame
    let good = encode_with_serial(&model);
    let results2 = decoder.packet_slice(&good);
    assert_eq!(results2.len(), 1);
    assert!(matches!(results2[0], DecodeResult::Success(_)));
}

#[test]
fn stuffed_payload_aa_aa_round_trips() {
    let mut model = TtlvCommandModel::new(0x7016, 0);
    model.add_payload(TTLVData::new(7, 3, true).with_binary(vec![0xAA, 0xAA]));
    let bytes = encode_with_serial(&model);
    // the wire form carries AA 55 AA for the two payload 0xAA bytes
    let mut found = false;
    for w in bytes.windows(3) {
        if w == [0xAA, 0x55, 0xAA] {
            found = true;
        }
    }
    assert!(found, "expected AA 55 AA on the wire in {:02x?}", bytes);
    let mut decoder = DecodeTools::new();
    let results = decoder.packet_slice(&bytes);
    assert_eq!(results.len(), 1);
    match &results[0] {
        DecodeResult::Success(frame) => {
            assert_eq!(frame.payloads[0].as_binary(), Some(&vec![0xAA, 0xAA]));
        }
        other => panic!("expected Success, got {:?}", other),
    }
}

#[test]
fn trailing_aa_is_kept_as_potential_preamble() {
    let mut decoder = DecodeTools::new();
    // nine bytes of garbage ending in 0xAA: everything before the trailing
    // 0xAA is dropped, the 0xAA is retained
    let results = decoder.packet_slice(&[1, 2, 3, 4, 5, 6, 7, 8, 0xAA]);
    assert_eq!(results.len(), 1);
    assert!(matches!(results[0], DecodeResult::Incomplete));
    // the retained 0xAA completes into a frame with the rest
    let model = TtlvCommandModel::new(0x7032, 0);
    let bytes = encode_with_serial(&model);
    let results2 = decoder.packet_slice(&bytes[1..]);
    assert_eq!(results2.len(), 1);
    assert!(matches!(results2[0], DecodeResult::Success(_)));
}

#[test]
fn garbage_without_header_is_rejected() {
    let mut decoder = DecodeTools::new();
    let results = decoder.packet_slice(&[1, 2, 3, 4, 5, 6, 7, 8, 9]);
    assert_eq!(results.len(), 1);
    assert!(matches!(results[0], DecodeResult::Error(DecodeError::NoHeader)));
}

#[test]
fn reserved_command_zero_is_invalid() {
    // hand-built frame with cmd = 0: AA AA 00 05 crc pid pid 00 00
    let tail = [0x03u8, 0xE8, 0x00, 0x00];
    let crc = tail.iter().fold(0u8, |a, b| a.wrapping_add(*b));
    let mut frame = vec![0xAA, 0xAA, 0x00, 0x05, crc];
    frame.extend_from_slice(&tail);
    let mut decoder = DecodeTools::new();
    let results = decoder.packet_slice(&frame);
    assert_eq!(results.len(), 1);
    assert!(matches!(results[0], DecodeResult::Error(DecodeError::InvalidCmd)));
}

#[test]
fn truncated_frame_is_rejected() {
    // a located frame whose length field is zero spans only four bytes and
    // cannot hold its checksum
    let mut decoder = DecodeTools::new();
    let results = decoder.packet_slice(&[0xAA, 0xAA, 0x00, 0x00, 1, 2, 3, 4, 5]);
    assert_eq!(results.len(), 2);
    assert!(matches!(results[0], DecodeResult::Error(DecodeError::FrameTooShort)));
    assert!(matches!(results[1], DecodeResult::Incomplete));
}

#[test]
fn nested_struct_round_trip() {
    let mut model = TtlvCommandModel::new(0x7040, 0);
    model.add_payload(TTLVData::new(1, 0, true).with_boolean(false));
    model.add_payload(TTLVData::new(2, 1, true).with_boolean(true));
    model.add_payload(TTLVData::new(3, 2, true).with_integer(-31337));
    model.add_payload(
        TTLVData::new(4, 2, true).with_decimal(DoubleNeedValue { value: 314, count: 2 }),
    );
    model.add_payload(TTLVData::new(5, 3, true).with_binary(vec![0xDE, 0xAD]));
    let mut children = Vec::new();
    children.push(TTLVData::new(0x1001, 2, true).with_integer(123));
    children.push(TTLVData::new(0x1002, 3, true).with_binary(vec![9]));
    model.add_payload(TTLVData::new(6, 4, true).with_struct(children));
    let bytes = encode_with_serial(&model);

    let mut decoder = DecodeTools::new();
    let results = decoder.packet_slice(&bytes);
    assert_eq!(results.len(), 1);
    let frame = match &results[0] {
        DecodeResult::Success(frame) => frame,
        other => panic!("expected Success, got {:?}", other),
    };
    assert_eq!(frame.cmd, 0x7040);
    assert_eq!(frame.payloads.len(), 6);
    assert_eq!(frame.payloads[0].id, 1);
    assert_eq!(frame.payloads[0].as_boolean(), Some(false));
    assert_eq!(frame.payloads[1].as_boolean(), Some(true));
    assert_eq!(frame.payloads[2].as_integer(), Some(-31337));
    let dec = frame.payloads[3].as_decimal().expect("decimal");
    assert_eq!(dec.get_value(), 314);
    assert_eq!(dec.get_count(), 2);
    assert_eq!(frame.payloads[4].as_binary(), Some(&vec![0xDE, 0xAD]));
    let st = frame.payloads[5].as_struct().expect("struct");
    assert_eq!(st.len(), 2);
    assert_eq!(st[0].id, 0x1001);
    assert_eq!(st[0].as_integer(), Some(123));
    assert_eq!(st[1].as_binary(), Some(&vec![9]));
}

#[test]
fn integer_extremes_round_trip() {
    let mut model = TtlvCommandModel::new(0x7040, 0);
    model.add_payload(TTLVData::new(1, 2, true).with_integer(i64::MIN));
    model.add_payload(TTLVData::new(2, 2, true).with_integer(i64::MAX));
    model.add_payload(TTLVData::new(3, 2, true).with_integer(0));
    let bytes = encode_with_serial(&model);
    let mut decoder = DecodeTools::new();
    let results = decoder.packet_slice(&bytes);
    match &results[0] {
        DecodeResult::Success(frame) => {
            assert_eq!(frame.payloads[0].as_integer(), Some(i64::MIN));
            assert_eq!(frame.payloads[1].as_integer(), Some(i64::MAX));
            assert_eq!(frame.payloads[2].as_integer(), Some(0));
        }
        other => panic!("expected Success, got {:?}", other),
    }
}

#[test]
fn text_fields_encode_as_integers() {
    let mut model = TtlvCommandModel::new(0x7040, 0);
    model.add_payload(TTLVData::new(1, 2, true).with_string(String::from("300")));
    model.add_payload(TTLVData::new(2, 2, true).with_string(String::from("-12345678901")));
    model.add_payload(TTLVData::new(3, 2, true).with_string(String::from("0")));
    let bytes = encode_with_serial(&model);
    let mut decoder = DecodeTools::new();
    let results = decoder.packet_slice(&bytes);
    match &results[0] {
        DecodeResult::Success(frame) => {
            assert_eq!(frame.payloads[0].as_integer(), Some(300));
            assert_eq!(frame.payloads[1].as_integer(), Some(-12345678901));
            assert_eq!(frame.payloads[2].as_integer(), Some(0));
        }
        other => panic!("expected Success, got {:?}", other),
    }
}

#[test]
fn transparent_frame_round_trip() {
    let mut model = TtlvTransparentModel::new(0x0024);
    model.payloads = vec![0x01, 0x02, 0x03];
    let mut tools = EncodeTools::new();
    let result = tools.start_encode_transparent(&model);
    let mut decoder = DecodeTools::new();
    let results = decoder.packet_slice(result.get_cmd_data());
    assert_eq!(results.len(), 1);
    match &results[0] {
        DecodeResult::Transparent(t) => {
            assert_eq!(t.cmd, 0x0024);
            assert_eq!(t.packet_id, Some(1000));
            assert_eq!(t.payloads, vec![0x01, 0x02, 0x03]);
        }
        other => panic!("expected Transparent, got {:?}", other),
    }
}

#[test]
fn serial_generator_full_cycle() {
    let mut tools = EncodeTools::new();
    assert_eq!(tools.get_packet_id(), 0);
    assert_eq!(tools.get_serial_num(), 1000);
    assert_eq!(tools.get_serial_num(), 1001);
    let mut last = 1001u16;
    loop {
        let next = tools.get_serial_num();
        assert_ne!(next, 0);
        assert_ne!(next, 0xFFFF);
        if last == 0xFFFE {
            assert_eq!(next, 1000);
            break;
        }
        assert_eq!(next, last + 1);
        last = next;
    }
}

#[test]
fn stuffing_inverse_on_samples() {
    let tools = EncodeTools::new();
    let decoder = DecodeTools::new();
    let samples: Vec<Vec<u8>> = vec![
        vec![0xAA, 0xAA, 0x00, 0x05, 0xAA, 0xAA, 0xAA, 0x70, 0x32],
        vec![0xAA, 0xAA, 0x01, 0x02, 0x03],
        vec![0xAA, 0xAA],
        vec![0xAA, 0xAA, 0xAA],
    ];
    for b in samples {
        let stuffed = tools.garble_buffer(&b);
        let back = decoder.splice_buffer(&stuffed);
        assert_eq!(back, b, "round trip of {:02x?} via {:02x?}", b, stuffed);
    }
    // the encoder turns an interior AA AA into AA 55 AA
    assert_eq!(
        tools.garble_buffer(&[0x01, 0x02, 0xAA, 0xAA]),
        vec![0x01, 0x02, 0xAA, 0x55, 0xAA]
    );
    // the decoder reduces AA 55 AA back to AA AA
    assert_eq!(
        decoder.splice_buffer(&[0x01, 0x02, 0xAA, 0x55, 0xAA]),
        vec![0x01, 0x02, 0xAA, 0xAA]
    );
}

#[test]
fn checksum_of_emitted_frames() {
    let mut model = TtlvCommandModel::new(0x7040, 0);
    model.add_payload(TTLVData::new(9, 3, true).with_binary(vec![1, 2, 3, 4]));
    let bytes = encode_with_serial(&model);
    // un-stuff to recover the envelope, then check frame[4] == sum(frame[5..])
    let decoder = DecodeTools::new();
    let env = decoder.splice_buffer(&bytes);
    let sum = env[5..].iter().fold(0u8, |a, b| a.wrapping_add(*b));
    assert_eq!(env[4], sum);
}

#[test]
fn encode_result_setters_and_getters() {
    let mut r = quec_ttlv::model::EncodeResult::new();
    assert_eq!(r.get_cmd_key(), 0);
    assert_eq!(r.get_cmd(), 0);
    assert_eq!(r.get_packet_id(), 0);
    assert!(r.get_cmd_data().is_empty());
    r.set_cmd_key(0x12345678);
    r.set_cmd_data(vec![1, 2, 3]);
    r.set_cmd(0x7032);
    r.set_packet_id(1000);
    assert_eq!(r.get_cmd_key(), 0x12345678);
    assert_eq!(r.get_cmd_data(), &vec![1, 2, 3]);
    assert_eq!(r.get_cmd(), 0x7032);
    assert_eq!(r.get_packet_id(), 1000);
}

#[test]
fn model_setters_and_value_accessors() {
    let mut model = TtlvCommandModel::new(1, 2);
    model.set_cmd(0x7032);
    model.set_packet_id(77);
    assert_eq!(model.get_cmd(), 0x7032);
    assert_eq!(model.get_packet_id(), 77);
    assert!(model.get_payloads().is_empty());

    let d = TTLVData::new(5, 0, true).with_boolean(true);
    assert_eq!(d.type_id, 1);
    assert_eq!(d.as_boolean(), Some(true));
    assert_eq!(d.as_integer(), None);
    let s = TTLVData::new(5, 0, true).with_string(String::from("abc"));
    assert_eq!(s.type_id, 2);
    assert_eq!(s.as_string().map(|x| x.as_str()), Some("abc"));
    let b = TTLVData::new(5, 0, true).with_binary(vec![1]);
    assert_eq!(b.type_id, 3);
    assert_eq!(b.value.type_id(), 3);

    let mut dnv = DoubleNeedValue::new();
    dnv.set_value(-42);
    dnv.set_count(3);
    assert_eq!(dnv.get_value(), -42);
    assert_eq!(dnv.get_count(), 3);
}
