use base64::Engine;

use quec_ttlv::commands::{
    create_base_command, get_command_name, is_base_command, is_iot_command, Cmd, Command, IotCmd,
};
use quec_ttlv::decode::{DecodeResult, DecodeTools};
use quec_ttlv::device::{check_bit_value, QuecBLEDevice, QuecBLEDeviceDecodeError};
use quec_ttlv::encode::EncodeTools;
use quec_ttlv::hex::{byte2hex, bytes_to_hex_str, bytes_to_hex_string};
use quec_ttlv::model::{TTLVData, TtlvCommandModel};
use quec_ttlv::session::{
    build_login_command, build_pure_login_command, build_random_command, build_wifi_pair_command,
    digest, LoginInfoContainer, Session, SessionState,
};

#[test]
fn command_code_round_trips() {
    for code in [0x7030, 0x7032, 0x7034, 0x0011, 0x0013, 0x7010, 0x7013] {
        let cmd = Cmd::from_i32(code).expect("base command");
        assert_eq!(cmd.as_i32(), code);
    }
    for code in [0x0031, 0x7051, 0x0023, 0x0024, 0x7062, 0x7018] {
        let cmd = IotCmd::from_i32(code).expect("iot command");
        assert_eq!(cmd.as_i32(), code);
    }
    assert_eq!(Cmd::from_i32(0x9999), None);
    assert_eq!(IotCmd::from_i32(0x9999), None);
    assert_eq!(Command::from_i32(0x0011), Some(Command::Base(Cmd::TlsRead)));
    assert_eq!(
        Command::from_i32(0x7051),
        Some(Command::Iot(IotCmd::ReadDeviceWifiList))
    );
    // 0x7017 is both a base response and an IoT command; base wins
    assert_eq!(
        Command::from_i32(0x7017),
        Some(Command::Base(Cmd::BLEAccountAuthenticationResp))
    );
    assert_eq!(Command::from_i32(0x4242), None);
    assert!(Command::Base(Cmd::TlsRead).is_base());
    assert!(!Command::Base(Cmd::TlsRead).is_iot());
    assert!(Command::Iot(IotCmd::FileControl).is_iot());
    assert!(is_base_command(0x0011));
    assert!(!is_base_command(0x0031));
    assert!(is_iot_command(0x0031));
    assert_eq!(get_command_name(0x0011).as_deref(), Some("TlsRead"));
    assert_eq!(get_command_name(0x7051).as_deref(), Some("ReadDeviceWifiList"));
    assert_eq!(get_command_name(0x4242), None);
    let model = create_base_command(Cmd::TlsRead, 123);
    assert_eq!(model.cmd, 0x0011);
    assert_eq!(model.packet_id, 123);
}

#[test]
fn hex_helpers() {
    assert_eq!(bytes_to_hex_str(&[0xDE, 0xAD, 0xBE, 0xEF]), "deadbeef");
    assert_eq!(byte2hex(&[0x00, 0x0F, 0xF0]), "000ff0");
    assert_eq!(bytes_to_hex_string(&[]), "");
}

#[test]
fn digest_matches_known_sha256() {
    assert_eq!(
        digest("abc"),
        "ba7816bf8f01cfea414140de5dae2223b00361a396177a9cb410ff61f20015ad"
    );
}

fn adv_blob(flags_hi: u8, flags_lo: u8) -> Vec<u8> {
    vec![
        0x45, 0x43, // "EC"
        0x00, 0x01, // version 1
        0x06, 0x61, 0x62, 0x63, 0x64, 0x65, 0x66, // product key "abcdef"
        0x04, 0xDE, 0xAD, 0xBE, 0xEF, // device key bytes
        0x00, // status
        flags_hi, flags_lo,
    ]
}

#[test]
fn advertisement_decodes() {
    let dev = QuecBLEDevice::decode_data(&adv_blob(0x00, 0x00)).expect("decodes");
    assert_eq!(dev.version, 1);
    assert_eq!(dev.product_key, "abcdef");
    assert_eq!(dev.device_key, "deadbeef");
    assert_eq!(dev.device_status, 0);
    assert_eq!(dev.capabilities_bitmask, 0);
    assert!(!dev.is_old_device);
    assert_eq!(dev.tag, "QUEC");
}

#[test]
fn advertisement_trims_key_for_old_devices() {
    // bit 8 set: one trailing character of the hex key is stripped
    let dev = QuecBLEDevice::decode_data(&adv_blob(0x01, 0x00)).expect("decodes");
    assert_eq!(dev.device_key, "deadbee");
    assert!(dev.is_old_device);
}

#[test]
fn advertisement_uppercases_key_on_bit_12() {
    let dev = QuecBLEDevice::decode_data(&adv_blob(0x10, 0x00)).expect("decodes");
    assert_eq!(dev.device_key, "DEADBEEF");
}

#[test]
fn advertisement_capability_bits() {
    let dev = QuecBLEDevice::decode_data(&adv_blob(0x00, 0xFF)).expect("decodes");
    assert!(dev.is_cl_dk);
    assert!(dev.is_wifi_config);
    assert!(dev.is_bind);
    assert!(dev.is_enable_bind);
    assert_eq!(dev.endpoint_type, 0x0F);
    assert!(check_bit_value(0x0100, 8));
    assert!(!check_bit_value(0x0100, 9));
}

#[test]
fn advertisement_rejects_short_input() {
    let blob: Vec<u8> = vec![0x45, 0x43, 0x00];
    match QuecBLEDevice::decode_data(&blob) {
        Err(QuecBLEDeviceDecodeError::DataTooShort) => {}
        other => panic!("expected DataTooShort, got {:?}", other),
    }
}

#[test]
fn advertisement_rejects_wrong_header() {
    let mut blob = adv_blob(0, 0);
    blob[0] = 0x69;
    blob[1] = 0x67;
    match QuecBLEDevice::decode_data(&blob) {
        Err(QuecBLEDeviceDecodeError::InvalidHeader(h)) => assert_eq!(h, 0x6967),
        other => panic!("expected InvalidHeader, got {:?}", other),
    }
}

#[test]
fn advertisement_rejects_overrunning_length_byte() {
    let mut blob = adv_blob(0, 0);
    blob[4] = 0xFF; // product key length far past the end
    match QuecBLEDevice::decode_data(&blob) {
        Err(QuecBLEDeviceDecodeError::InsufficientFieldData(name, len)) => {
            assert_eq!(name, "product_key");
            assert_eq!(len, 0xFF);
        }
        other => panic!("expected InsufficientFieldData, got {:?}", other),
    }
}

#[test]
fn advertisement_rejects_overrunning_device_key_length() {
    let mut blob = adv_blob(0, 0);
    blob[11] = 0xFF; // device key length far past the end
    match QuecBLEDevice::decode_data(&blob) {
        Err(QuecBLEDeviceDecodeError::InsufficientFieldData(name, len)) => {
            assert_eq!(name, "device_key");
            assert_eq!(len, 0xFF);
        }
        other => panic!("expected InsufficientFieldData, got {:?}", other),
    }
}

#[test]
fn advertisement_rejects_missing_device_key_length_byte() {
    // the product key runs to the very end: the device-key length byte is
    // missing, which counts as the blob being too short
    let blob: Vec<u8> = vec![
        0x45, 0x43, 0x00, 0x01, 0x0E, 0x61, 0x62, 0x63, 0x64, 0x65, 0x66, 0x67, 0x68, 0x69,
        0x6A, 0x6B, 0x6C, 0x6D, 0x6E,
    ];
    assert_eq!(blob.len(), 19);
    match QuecBLEDevice::decode_data(&blob) {
        Err(QuecBLEDeviceDecodeError::DataTooShort) => {}
        other => panic!("expected DataTooShort, got {:?}", other),
    }
}

#[test]
fn advertisement_rejects_missing_status_byte() {
    // both keys fit exactly but nothing is left for the status byte
    let blob: Vec<u8> = vec![
        0x45, 0x43, 0x00, 0x01, 0x06, 0x61, 0x62, 0x63, 0x64, 0x65, 0x66, 0x07, 0x01, 0x02,
        0x03, 0x04, 0x05, 0x06, 0x07,
    ];
    assert_eq!(blob.len(), 19);
    match QuecBLEDevice::decode_data(&blob) {
        Err(QuecBLEDeviceDecodeError::DataTooShort) => {}
        other => panic!("expected DataTooShort, got {:?}", other),
    }
}

#[test]
fn login_info_container_holds_random() {
    let mut c = LoginInfoContainer::new();
    assert_eq!(c.get_random(), "");
    c.set_random(String::from("challenge"));
    assert_eq!(c.get_random(), "challenge");
}

#[test]
fn random_command_builder() {
    let mut tools = EncodeTools::new();
    let r = build_random_command(&mut tools);
    assert_eq!(r.get_cmd(), 0x7032);
    assert_eq!(r.get_packet_id(), 1000);
    assert_eq!(
        r.get_cmd_data(),
        &vec![0xAA, 0xAA, 0x00, 0x05, 0x8D, 0x03, 0xE8, 0x70, 0x32]
    );
}

#[test]
fn pure_login_command_builder() {
    let mut tools = EncodeTools::new();
    let r = build_pure_login_command(&mut tools);
    assert_eq!(r.get_cmd(), 0x7016);
    assert_eq!(r.get_packet_id(), 1001);
    assert_eq!(&r.get_cmd_data()[9..], &[0x00, 0x0A, 0x00, 0x01]);
}

#[test]
fn login_command_carries_the_derived_hash() {
    let mut tools = EncodeTools::new();
    // sixteen base64 characters decode to twelve raw key bytes
    let r = build_login_command(&mut tools, "RND123", "3EB24BC7957DB49D").expect("valid base64");
    assert_eq!(r.get_cmd(), 0x7034);
    assert_eq!(r.get_packet_id(), 1001);
    // decode the frame and recompute the hash independently
    let mut decoder = DecodeTools::new();
    let results = decoder.packet_slice(r.get_cmd_data());
    let frame = match &results[0] {
        DecodeResult::Success(frame) => frame,
        other => panic!("expected Success, got {:?}", other),
    };
    assert_eq!(frame.cmd, 0x7034);
    let field = &frame.payloads[0];
    assert_eq!(field.id, 2);
    let hash_bytes = field.as_binary().expect("binary login hash");
    let hash = String::from_utf8(hash_bytes.clone()).expect("ascii");
    let raw = base64::engine::general_purpose::STANDARD
        .decode("3EB24BC7957DB49D")
        .unwrap();
    let expected = digest(&format!("{};{}", bytes_to_hex_str(&raw), "RND123"));
    assert_eq!(hash, expected);
}

#[test]
fn login_command_rejects_bad_base64() {
    let mut tools = EncodeTools::new();
    assert!(build_login_command(&mut tools, "RND", "not base64 !!!").is_none());
}

#[test]
fn wifi_pair_command_builder() {
    let mut tools = EncodeTools::new();
    let r = build_wifi_pair_command(&mut tools, "HomeNet", "hunter2", 30, 380, "mqtt://h:1")
        .expect("fits");
    assert_eq!(r.get_cmd(), 0x7010);
    assert_eq!(r.get_packet_id(), 1001);
    let mut decoder = DecodeTools::new();
    let results = decoder.packet_slice(r.get_cmd_data());
    let frame = match &results[0] {
        DecodeResult::Success(frame) => frame,
        other => panic!("expected Success, got {:?}", other),
    };
    assert_eq!(frame.payloads.len(), 5);
    assert_eq!(frame.payloads[0].as_binary(), Some(&b"HomeNet".to_vec()));
    assert_eq!(frame.payloads[1].as_binary(), Some(&b"hunter2".to_vec()));
    assert_eq!(frame.payloads[2].as_integer(), Some(30));
    assert_eq!(frame.payloads[3].as_integer(), Some(380));
    assert_eq!(frame.payloads[4].as_binary(), Some(&b"mqtt://h:1".to_vec()));
}

#[test]
fn wifi_pair_command_rejects_oversized_field() {
    let mut tools = EncodeTools::new();
    let long_ssid = "x".repeat(0x1001);
    assert!(build_wifi_pair_command(&mut tools, &long_ssid, "pw", 1, 2, "url").is_none());
}

#[test]
fn handshake_walks_through_its_states() {
    let mut tools = EncodeTools::new();
    let mut session = Session::new(String::from("3EB24BC7957DB49D"));
    assert_eq!(session.state, SessionState::Idle);

    let request = session.start(&mut tools);
    assert_eq!(session.state, SessionState::AwaitRandom);
    assert_eq!(request.get_cmd(), 0x7032);

    // the device answers the challenge
    let mut random_resp = TtlvCommandModel::new(0x7033, 500);
    random_resp.add_payload(TTLVData::new(1, 3, true).with_binary(b"CHAL".to_vec()));
    let login = session.on_frame(&mut tools, &random_resp);
    assert_eq!(session.state, SessionState::AwaitLogin);
    assert_eq!(session.random, "CHAL");
    let login = login.expect("login frame");
    assert_eq!(login.get_cmd(), 0x7034);
    assert_eq!(login.get_packet_id(), 1001);

    // the device accepts the login
    let login_resp = TtlvCommandModel::new(0x7035, 501);
    assert!(session.on_frame(&mut tools, &login_resp).is_none());
    assert_eq!(session.state, SessionState::Authenticated);

    // a pairing response later hands over a fresh binding key
    let mut pair_resp = TtlvCommandModel::new(0x7011, 502);
    pair_resp.add_payload(TTLVData::new(9, 3, true).with_binary(b"NEWKEY".to_vec()));
    assert!(session.on_frame(&mut tools, &pair_resp).is_none());
    assert_eq!(session.binding_key, "NEWKEY");

    // unrelated frames leave the session alone
    let other = TtlvCommandModel::new(0x7038, 503);
    assert!(session.on_frame(&mut tools, &other).is_none());
    assert_eq!(session.state, SessionState::Authenticated);
}
