//! The onboarding handshake: the login hash derived from the binding key
//! and the device's random challenge, the frames the handshake sends, and
//! the state machine that drives it.

use vstd::prelude::*;
use vstd::string::StringExecFns;
use vstd::string::StringSliceAdditionalSpecFns;
use vstd::utf8::{encode_utf8, is_ascii_chars, is_ascii_chars_encode_utf8};

use crate::commands::Cmd;
use crate::device::utf8_lossy_of;
use crate::encode::{enc_fields, envelope, next_serial, payload_of, EncodeTools};
use crate::hex::{byte2hex, hex_of, lemma_hex_index};
use crate::model::{
    deep_fields, valid_field, valid_fields, EncodeResult, SpecField, SpecValue, TTLVData,
    TTLVValue, TtlvCommandModel,
};
use crate::wire::stuff;

verus! {

/// Relies on sha2's SHA-256 implementation; the digest depends on the input
/// bytes alone.
pub uninterp spec fn sha256_of(bytes: Seq<u8>) -> Seq<u8>;

/// Relies on sha2::Sha256 (new, update, finalize): the SHA-256 digest of the
/// input, which is always 32 bytes long.
#[verifier::external_body]
fn sha256_digest(bytes: &[u8]) -> (r: Vec<u8>)
    ensures
        r@ == sha256_of(bytes@),
        r@.len() == 32,
{
    let mut hasher = <sha2::Sha256 as sha2::Digest>::new();
    sha2::Digest::update(&mut hasher, bytes);
    let out = sha2::Digest::finalize(hasher);
    out.to_vec()
}

/// Relies on base64's standard-alphabet decoding; the outcome depends on
/// the input bytes alone.
pub uninterp spec fn base64_decoded(bytes: Seq<u8>) -> Option<Seq<u8>>;

/// Relies on base64::Engine::decode with the standard alphabet: the decoded
/// bytes, or nothing when the input is not valid base64.
#[verifier::external_body]
fn base64_decode(s: &str) -> (r: Option<Vec<u8>>)
    ensures
        match r {
            Some(v) => base64_decoded(s.spec_bytes()) == Some(v@),
            None => base64_decoded(s.spec_bytes()) is None,
        },
{
    match base64::Engine::decode(&base64::engine::general_purpose::STANDARD, s) {
        Ok(v) => Some(v),
        Err(_) => None,
    }
}

/// The lower-case hex SHA-256 digest of a string's bytes.
pub fn digest(input: &str) -> (r: String)
    ensures
        r@ == hex_of(sha256_of(input.spec_bytes())),
        sha256_of(input.spec_bytes()).len() == 32,
{
    let d = sha256_digest(input.as_bytes());
    byte2hex(d.as_slice())
}

/// Hex renderings consist of ASCII characters only.
pub proof fn lemma_hex_ascii(bytes: Seq<u8>)
    ensures
        is_ascii_chars(hex_of(bytes)),
    decreases bytes.len(),
{
    if bytes.len() == 0 {
    } else {
        lemma_hex_ascii(bytes.drop_last());
        let h = hex_of(bytes);
        let hd = hex_of(bytes.drop_last());
        assert forall|i: int| 0 <= i < h.len() implies '\0' <= #[trigger] h[i] <= '\u{7f}' by {
            if i < hd.len() {
                assert(h[i] == hd[i]);
            }
        }
    }
}

/// The login hash: the binding key's raw bytes rendered as lower-case hex,
/// joined to the random challenge with a semicolon, hashed with SHA-256 and
/// rendered as lower-case hex.
pub open spec fn login_hash_chars(binding_raw: Seq<u8>, random: Seq<char>) -> Seq<char> {
    hex_of(sha256_of(encode_utf8(hex_of(binding_raw) + seq![';'] + random)))
}

/// The single login payload field: id 2, binary, carrying the ASCII bytes
/// of the login hash.
pub open spec fn login_field(binding_raw: Seq<u8>, random: Seq<char>) -> SpecField {
    SpecField {
        id: 2,
        type_id: 3,
        ttlv: true,
        value: SpecValue::Binary(encode_utf8(login_hash_chars(binding_raw, random))),
    }
}

/// Container for the random challenge captured from the device.
pub struct LoginInfoContainer {
    random: String,
}

impl LoginInfoContainer {
    /// The stored random challenge.
    pub closed spec fn spec_random(&self) -> Seq<char> {
        self.random@
    }

    pub fn new() -> (r: Self)
        ensures
            r.spec_random() == Seq::<char>::empty(),
    {
        LoginInfoContainer { random: String::new() }
    }

    pub fn set_random(&mut self, random: String)
        ensures
            final(self).spec_random() == random@,
    {
        self.random = random;
    }

    pub fn get_random(&self) -> (r: String)
        ensures
            r@ == self.spec_random(),
    {
        self.random.clone()
    }
}

/// Builds the random-challenge request: command 0x7032 with an empty
/// payload and the next serial packet id.
pub fn build_random_command(tools: &mut EncodeTools) -> (r: EncodeResult)
    requires
        old(tools).wf(),
    ensures
        final(tools).wf(),
        r.spec_cmd() == Cmd::Random.spec_code(),
        r.spec_packet_id() == next_serial(old(tools).serial()),
        r.spec_cmd_data() == stuff(
            envelope(0x7032, next_serial(old(tools).serial()), Seq::empty()),
        ),
{
    let command_model = TtlvCommandModel::new(Cmd::Random.as_i32(), 0);
    proof {
        assert(deep_fields(command_model.payloads@) =~= Seq::<SpecField>::empty());
        assert(enc_fields(Seq::<SpecField>::empty()) =~= Seq::<u8>::empty());
    }
    tools.start_encode(&command_model)
}

proof fn lemma_single_valid(f: SpecField)
    requires
        valid_field(f),
    ensures
        valid_fields(seq![f]),
{
    assert(seq![f][0] == f);
    assert(seq![f].drop_first() =~= Seq::<SpecField>::empty());
    assert(valid_fields(Seq::<SpecField>::empty()));
}

/// Builds the login frame answering a random challenge: the binding key is
/// base64-decoded, rendered as hex, joined to the challenge and hashed; the
/// hash travels as binary field 2 of command 0x7034 under the reserved
/// packet id 1001. Yields nothing when the binding key is not valid base64.
pub fn build_login_command(tools: &mut EncodeTools, random_value: &str, binding_key: &str) -> (r:
    Option<EncodeResult>)
    requires
        old(tools).wf(),
    ensures
        final(tools).wf(),
        final(tools).serial() == old(tools).serial(),
        base64_decoded(binding_key.spec_bytes()) is None ==> r is None,
        (base64_decoded(binding_key.spec_bytes()) matches Some(raw) && raw.len() <= 0x7000) ==> r
            is Some,
        r matches Some(res) ==> {
            let raw = base64_decoded(binding_key.spec_bytes())->0;
            &&& base64_decoded(binding_key.spec_bytes()) is Some
            &&& res.spec_cmd() == Cmd::Login.spec_code()
            &&& res.spec_packet_id() == 1001
            &&& res.spec_cmd_data() == stuff(
                envelope(0x7034, 1001, enc_fields(seq![login_field(raw, random_value@)])),
            )
        },
{
    let raw = match base64_decode(binding_key) {
        Some(raw) => raw,
        None => {
            return None;
        },
    };
    if raw.len() > 0x7000 {
        return None;
    }
    let bk = crate::hex::bytes_to_hex_str(raw.as_slice());
    let params = bk.concat(";").concat(random_value);
    let params_str = params.as_str();
    let value = digest(params_str);
    proof {
        reveal_strlit(";");
        assert(";"@ =~= seq![';']);
        assert(params_str@ == hex_of(raw@) + seq![';'] + random_value@);
        assert(value@ == login_hash_chars(raw@, random_value@));
        lemma_hex_ascii(sha256_of(params_str.spec_bytes()));
        is_ascii_chars_encode_utf8(value@);
        lemma_hex_index(sha256_of(params_str.spec_bytes()));
    }
    let value_bytes = vstd::slice::slice_to_vec(value.as_str().as_bytes());
    proof {
        assert(value_bytes@ == encode_utf8(login_hash_chars(raw@, random_value@)));
        assert(value_bytes@.len() == 64);
    }
    let mut login_model = TtlvCommandModel::new(Cmd::Login.as_i32(), 1001);
    let field = TTLVData::new(2, 3, true).with_binary(value_bytes);
    login_model.add_payload(field);
    let ghost lf = login_field(base64_decoded(binding_key.spec_bytes())->0, random_value@);
    proof {
        assert(deep_fields(login_model.payloads@) =~= seq![lf]);
        lemma_single_valid(lf);
        crate::encode::lemma_enc_fields_singleton(lf);
        assert(crate::encode::enc_field(lf).len() == 2 + 2 + 64);
        assert(login_model.cmd == 0x7034);
        assert(payload_of(login_model) == enc_fields(seq![lf]));
        assert(1001i32 & 0xffff == 1001) by (bit_vector);
    }
    Some(tools.start_encode_with_packet_id(&login_model, true))
}

/// Builds the account-authentication probe: command 0x7016 with a single
/// integer field under the reserved packet id 1001.
pub fn build_pure_login_command(tools: &mut EncodeTools) -> (r: EncodeResult)
    requires
        old(tools).wf(),
    ensures
        final(tools).wf(),
        final(tools).serial() == old(tools).serial(),
        r.spec_cmd() == Cmd::BLEAccountAuthentication.spec_code(),
        r.spec_packet_id() == 1001,
        r.spec_cmd_data() == stuff(
            envelope(
                0x7016,
                1001,
                enc_fields(
                    seq![
                        SpecField {
                            id: 1,
                            type_id: 2,
                            ttlv: true,
                            value: SpecValue::Integer(1),
                        },
                    ],
                ),
            ),
        ),
{
    let mut login_model = TtlvCommandModel::new(Cmd::BLEAccountAuthentication.as_i32(), 1001);
    login_model.add_payload(TTLVData::new(1, 2, true).with_integer(1));
    let ghost f = SpecField { id: 1, type_id: 2, ttlv: true, value: SpecValue::Integer(1) };
    proof {
        assert(deep_fields(login_model.payloads@) =~= seq![f]);
        lemma_single_valid(f);
        crate::encode::lemma_enc_fields_singleton(f);
        crate::wire::lemma_min_be_val(1);
        assert(crate::encode::enc_field(f).len() == 2 + 2);
        assert(payload_of(login_model) == enc_fields(seq![f]));
        assert(1001i32 & 0xffff == 1001) by (bit_vector);
    }
    tools.start_encode_with_packet_id(&login_model, true)
}

/// The five payload fields of a Wi-Fi pairing request: network name and
/// password as binary, the pairing timeout and configuration value as
/// integers, and the broker address as binary.
pub open spec fn wifi_pair_fields(
    ssid: Seq<char>,
    password: Seq<char>,
    timeout: i64,
    config_value: i64,
    mqtt_url: Seq<char>,
) -> Seq<SpecField> {
    seq![
        SpecField { id: 1, type_id: 3, ttlv: true, value: SpecValue::Binary(encode_utf8(ssid)) },
        SpecField {
            id: 2,
            type_id: 3,
            ttlv: true,
            value: SpecValue::Binary(encode_utf8(password)),
        },
        SpecField { id: 11, type_id: 2, ttlv: true, value: SpecValue::Integer(timeout) },
        SpecField { id: 12, type_id: 2, ttlv: true, value: SpecValue::Integer(config_value) },
        SpecField {
            id: 13,
            type_id: 3,
            ttlv: true,
            value: SpecValue::Binary(encode_utf8(mqtt_url)),
        },
    ]
}

proof fn lemma_enc_field_num_len(f: SpecField)
    requires
        f.ttlv,
        f.value is Integer,
    ensures
        2 <= crate::encode::enc_field(f).len() <= 11,
{
    let v = f.value->Integer_0;
    crate::wire::lemma_min_be_val(crate::encode::abs_i64(v));
    crate::wire::lemma_byte_len_u64(crate::encode::abs_i64(v));
}

/// Builds the Wi-Fi pairing request: command 0x7010 under the reserved
/// packet id 1001, carrying the network name, the password, the timeout,
/// the configuration value and the broker address. Yields nothing when one
/// of the strings is too long for its length-prefixed wire field.
pub fn build_wifi_pair_command(
    tools: &mut EncodeTools,
    ssid: &str,
    password: &str,
    timeout: i64,
    config_value: i64,
    mqtt_url: &str,
) -> (r: Option<EncodeResult>)
    requires
        old(tools).wf(),
    ensures
        final(tools).wf(),
        final(tools).serial() == old(tools).serial(),
        (encode_utf8(ssid@).len() <= 0x1000 && encode_utf8(password@).len() <= 0x1000
            && encode_utf8(mqtt_url@).len() <= 0x1000) ==> r is Some,
        r matches Some(res) ==> {
            &&& res.spec_cmd() == Cmd::WifiPair.spec_code()
            &&& res.spec_packet_id() == 1001
            &&& res.spec_cmd_data() == stuff(
                envelope(
                    0x7010,
                    1001,
                    enc_fields(
                        wifi_pair_fields(ssid@, password@, timeout, config_value, mqtt_url@),
                    ),
                ),
            )
        },
{
    let ssid_b = vstd::slice::slice_to_vec(ssid.as_bytes());
    let pw_b = vstd::slice::slice_to_vec(password.as_bytes());
    let url_b = vstd::slice::slice_to_vec(mqtt_url.as_bytes());
    if ssid_b.len() > 0x1000 || pw_b.len() > 0x1000 || url_b.len() > 0x1000 {
        return None;
    }
    let mut model = TtlvCommandModel::new(Cmd::WifiPair.as_i32(), 1001);
    model.add_payload(TTLVData::new(1, 3, true).with_binary(ssid_b));
    model.add_payload(TTLVData::new(2, 3, true).with_binary(pw_b));
    model.add_payload(TTLVData::new(11, 2, true).with_integer(timeout));
    model.add_payload(TTLVData::new(12, 2, true).with_integer(config_value));
    model.add_payload(TTLVData::new(13, 3, true).with_binary(url_b));
    let ghost fs = wifi_pair_fields(ssid@, password@, timeout, config_value, mqtt_url@);
    proof {
        assert(deep_fields(model.payloads@) =~= fs);
        let t1 = fs.drop_first();
        let t2 = t1.drop_first();
        let t3 = t2.drop_first();
        let t4 = t3.drop_first();
        let t5 = t4.drop_first();
        assert(t5 =~= Seq::<SpecField>::empty());
        assert(t1[0] == fs[1] && t2[0] == fs[2] && t3[0] == fs[3] && t4[0] == fs[4]);
        assert(valid_field(fs[0]) && valid_field(fs[1]) && valid_field(fs[2]) && valid_field(
            fs[3],
        ) && valid_field(fs[4]));
        assert(valid_fields(t5));
        assert(valid_fields(t4));
        assert(valid_fields(t3));
        assert(valid_fields(t2));
        assert(valid_fields(t1));
        assert(valid_fields(fs));
        lemma_enc_field_num_len(fs[2]);
        lemma_enc_field_num_len(fs[3]);
        assert(enc_fields(t5).len() == 0);
        assert(enc_fields(t4) == crate::encode::enc_field(t4[0]) + enc_fields(t5));
        assert(enc_fields(t3) == crate::encode::enc_field(t3[0]) + enc_fields(t4));
        assert(enc_fields(t2) == crate::encode::enc_field(t2[0]) + enc_fields(t3));
        assert(enc_fields(t1) == crate::encode::enc_field(t1[0]) + enc_fields(t2));
        assert(enc_fields(fs) == crate::encode::enc_field(fs[0]) + enc_fields(t1));
        assert(crate::encode::enc_field(fs[0]).len() <= 4 + 0x1000);
        assert(crate::encode::enc_field(fs[1]).len() <= 4 + 0x1000);
        assert(crate::encode::enc_field(fs[4]).len() <= 4 + 0x1000);
        assert(enc_fields(fs).len() <= 3 * (4 + 0x1000) + 22);
        assert(payload_of(model) == enc_fields(fs));
        assert(1001i32 & 0xffff == 1001) by (bit_vector);
    }
    Some(tools.start_encode_with_packet_id(&model, true))
}

/// Where the handshake stands.
#[derive(Clone, Copy, Debug, PartialEq, Eq, Structural)]
pub enum SessionState {
    /// Nothing sent yet.
    Idle,
    /// The random challenge was requested; waiting for the response.
    AwaitRandom,
    /// The login hash was sent; waiting for the response.
    AwaitLogin,
    /// The device accepted the login.
    Authenticated,
}

/// The first field with the given id, if any.
pub open spec fn spec_find(s: Seq<TTLVData>, id: i32) -> Option<TTLVData>
    decreases s,
{
    if s.len() == 0 {
        None
    } else if s[0].id == id {
        Some(s[0])
    } else {
        spec_find(s.drop_first(), id)
    }
}

/// Finds the first payload field with the given id.
pub fn find_payload<'a>(payloads: &'a Vec<TTLVData>, id: i32) -> (r: Option<&'a TTLVData>)
    ensures
        match spec_find(payloads@, id) {
            Some(f) => r is Some && *r->0 == f,
            None => r is None,
        },
{
    let mut i: usize = 0;
    proof {
        assert(payloads@.skip(0) =~= payloads@);
    }
    while i < payloads.len()
        invariant
            i <= payloads@.len(),
            spec_find(payloads@, id) == spec_find(payloads@.skip(i as int), id),
        decreases payloads@.len() - i,
    {
        let ghost before = payloads@.skip(i as int);
        let f = &payloads[i];
        if f.id == id {
            proof {
                assert(before[0] == payloads@[i as int]);
            }
            return Some(f);
        }
        proof {
            assert(before[0] == payloads@[i as int]);
            assert(before.drop_first() =~= payloads@.skip(i + 1));
        }
        i = i + 1;
    }
    proof {
        assert(payloads@.skip(payloads@.len() as int).len() == 0);
    }
    None
}

/// The handshake driver: holds the binding key, the captured random
/// challenge, and where the handshake stands; decides, frame by frame, what
/// to send next.
pub struct Session {
    pub state: SessionState,
    pub binding_key: String,
    pub random: String,
}

impl Session {
    pub fn new(binding_key: String) -> (r: Self)
        ensures
            r.state == SessionState::Idle,
            r.binding_key@ == binding_key@,
            r.random@.len() == 0,
    {
        Session { state: SessionState::Idle, binding_key, random: String::new() }
    }

    /// Opens the handshake: emits the random-challenge request and waits
    /// for the response.
    pub fn start(&mut self, tools: &mut EncodeTools) -> (r: EncodeResult)
        requires
            old(tools).wf(),
        ensures
            final(tools).wf(),
            final(self).state == SessionState::AwaitRandom,
            final(self).binding_key == old(self).binding_key,
            final(self).random == old(self).random,
            r.spec_cmd() == Cmd::Random.spec_code(),
            r.spec_cmd_data() == stuff(
                envelope(0x7032, next_serial(old(tools).serial()), Seq::empty()),
            ),
    {
        self.state = SessionState::AwaitRandom;
        build_random_command(tools)
    }

    /// Advances the handshake on one decoded frame: captures the random
    /// challenge and answers it with the login frame, notes the login
    /// response, and picks up a new binding key from a pairing response.
    pub fn on_frame(&mut self, tools: &mut EncodeTools, model: &TtlvCommandModel) -> (r: Option<
        EncodeResult,
    >)
        requires
            old(tools).wf(),
        ensures
            final(tools).wf(),
            ({
                let st = old(self).state;
                if model.cmd == 0x7033 && st == SessionState::AwaitRandom {
                    match spec_find(model.payloads@, 1) {
                        Some(f) => match f.value.deep() {
                            SpecValue::Binary(b) => {
                                &&& final(self).random@ == utf8_lossy_of(b)
                                &&& final(self).binding_key == old(self).binding_key
                                &&& (r is Some ==> base64_decoded(
                                    encode_utf8(old(self).binding_key@),
                                ) is Some)
                                &&& ((base64_decoded(encode_utf8(old(self).binding_key@)) matches
                                    Some(raw2) && raw2.len() <= 0x7000) ==> r is Some)
                                &&& (r matches Some(res) ==> {
                                    let raw = base64_decoded(
                                        encode_utf8(old(self).binding_key@),
                                    )->0;
                                    &&& final(self).state == SessionState::AwaitLogin
                                    &&& res.spec_cmd_data() == stuff(
                                        envelope(
                                            0x7034,
                                            1001,
                                            enc_fields(seq![login_field(raw, utf8_lossy_of(b))]),
                                        ),
                                    )
                                })
                                &&& (r is None ==> final(self).state == SessionState::AwaitRandom)
                            },
                            _ => *final(self) == *old(self) && r is None,
                        },
                        None => *final(self) == *old(self) && r is None,
                    }
                } else if model.cmd == 0x7035 && st == SessionState::AwaitLogin {
                    &&& final(self).state == SessionState::Authenticated
                    &&& final(self).binding_key == old(self).binding_key
                    &&& final(self).random == old(self).random
                    &&& r is None
                } else if model.cmd == 0x7011 {
                    match spec_find(model.payloads@, 9) {
                        Some(f) => match f.value.deep() {
                            SpecValue::Binary(b) => {
                                &&& final(self).binding_key@ == utf8_lossy_of(b)
                                &&& final(self).state == old(self).state
                                &&& final(self).random == old(self).random
                                &&& r is None
                            },
                            _ => *final(self) == *old(self) && r is None,
                        },
                        None => *final(self) == *old(self) && r is None,
                    }
                } else {
                    *final(self) == *old(self) && r is None
                }
            }),
    {
        let cmd = model.cmd;
        if cmd == 0x7033 && matches!(self.state, SessionState::AwaitRandom) {
            match find_payload(&model.payloads, 1) {
                Some(f) => {
                    match &f.value {
                        TTLVValue::Binary(data) => {
                            let random_value = crate::device::utf8_lossy(data.as_slice());
                            self.random = random_value;
                            let answer = build_login_command(
                                tools,
                                self.random.as_str(),
                                self.binding_key.as_str(),
                            );
                            if answer.is_some() {
                                self.state = SessionState::AwaitLogin;
                            }
                            answer
                        },
                        _ => None,
                    }
                },
                None => None,
            }
        } else if cmd == 0x7035 && matches!(self.state, SessionState::AwaitLogin) {
            self.state = SessionState::Authenticated;
            None
        } else if cmd == 0x7011 {
            match find_payload(&model.payloads, 9) {
                Some(f) => {
                    match &f.value {
                        TTLVValue::Binary(data) => {
                            self.binding_key = crate::device::utf8_lossy(data.as_slice());
                            None
                        },
                        _ => None,
                    }
                },
                None => None,
            }
        } else {
            None
        }
    }
}

} // verus!
