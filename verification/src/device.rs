//! Advertisement parsing: turns the manufacturer-data blob a device
//! broadcasts into a descriptor holding its identity and capability flags.

use vstd::prelude::*;
use vstd::string::StringExecFns;

use crate::hex::{hex_of, hex_prefix, hex_upper_of, lemma_hex_index};
use crate::wire::be16;

verus! {

/// A discovered device: identity, keys and capability flags taken from its
/// advertisement.
#[derive(Debug)]
pub struct QuecBLEDevice {
    pub id: String,
    pub name: String,
    pub version: u16,
    pub product_key: String,
    pub device_key: String,
    pub mac: String,
    pub device_status: u8,
    pub tag: String,
    pub is_cl_dk: bool,
    pub is_wifi_config: bool,
    pub is_bind: bool,
    pub is_enable_bind: bool,
    pub capabilities_bitmask: u16,
    pub endpoint_type: u8,
    pub is_old_device: bool,
}

/// Why an advertisement blob could not be decoded.
#[derive(Debug)]
pub enum QuecBLEDeviceDecodeError {
    /// The blob is shorter than the fixed minimum, or a mandatory byte past
    /// the variable-length fields is missing.
    DataTooShort,
    /// The first two bytes are not the 'E' 'C' tag; carries what was read.
    InvalidHeader(u16),
    /// The blob could not be interpreted; carries a description.
    DecodeFailed(String),
    /// A length byte promises more field bytes than the blob holds; carries
    /// the field name and the length byte.
    InsufficientFieldData(String, u8),
}

/// Whether the given bit of a flag word is set.
pub open spec fn spec_bit(value: u16, bit: u16) -> bool {
    (value >> bit) & 1 == 1
}

/// The end of the length-prefixed product-key field.
pub open spec fn pk_end(d: Seq<u8>) -> int {
    5 + d[4]
}

/// The raw bytes of the product-key field.
pub open spec fn pk_bytes(d: Seq<u8>) -> Seq<u8> {
    d.subrange(5, pk_end(d))
}

/// The end of the length-prefixed device-key field.
pub open spec fn dk_end(d: Seq<u8>) -> int {
    pk_end(d) + 1 + d[pk_end(d)]
}

/// The raw bytes of the device-key field.
pub open spec fn dk_bytes(d: Seq<u8>) -> Seq<u8> {
    d.subrange(pk_end(d) + 1, dk_end(d))
}

/// The capability flag word: the two bytes after the status byte, or zero
/// when the blob ends before them.
pub open spec fn adv_flags(d: Seq<u8>) -> u16 {
    if dk_end(d) + 3 <= d.len() {
        be16(d[dk_end(d) + 1], d[dk_end(d) + 2]) as u16
    } else {
        0u16
    }
}

/// The device-key text: the hex form of its bytes, upper-cased when bit 12
/// of the flags is set, and with its last character stripped when bit 8 is
/// set.
pub open spec fn spec_device_key(bytes: Seq<u8>, flags: u16) -> Seq<char> {
    let h = if spec_bit(flags, 12) {
        hex_upper_of(bytes)
    } else {
        hex_of(bytes)
    };
    if spec_bit(flags, 8) && h.len() > 0 {
        h.take(h.len() - 1)
    } else {
        h
    }
}

/// The decoding outcome an advertisement blob must produce: short blobs and
/// missing mandatory bytes are `DataTooShort`, a wrong tag is
/// `InvalidHeader`, an overrunning length byte is `InsufficientFieldData`,
/// and everything else decodes.
pub open spec fn adv_outcome_ok(d: Seq<u8>) -> bool {
    d.len() >= 19 && be16(d[0], d[1]) == 0x4543 && pk_end(d) <= d.len() && pk_end(d) + 1 <= d.len()
        && dk_end(d) <= d.len() && dk_end(d) + 1 <= d.len()
}

/// Relies on String::from_utf8_lossy, which depends on the bytes alone.
pub uninterp spec fn utf8_lossy_of(bytes: Seq<u8>) -> Seq<char>;

/// Relies on String::from_utf8_lossy: decodes UTF-8, substituting the
/// replacement character for invalid sequences; on valid UTF-8 it is plain
/// UTF-8 decoding.
#[verifier::external_body]
pub(crate) fn utf8_lossy(bytes: &[u8]) -> (r: String)
    ensures
        r@ == utf8_lossy_of(bytes@),
        vstd::utf8::valid_utf8(bytes@) ==> r@ == vstd::utf8::decode_utf8(bytes@),
        bytes@.len() == 0 ==> r@.len() == 0,
{
    String::from_utf8_lossy(bytes).to_string()
}

/// Whether the given bit of a flag word is set.
pub fn check_bit_value(value: u16, bit: u8) -> (r: bool)
    requires
        bit < 16,
    ensures
        r == spec_bit(value, bit as u16),
{
    ((value >> bit) & 0x01) == 0x01
}

impl QuecBLEDevice {
    /// Decode the manufacturer data advertised under the 0x5551 ("QU")
    /// manufacturer id into a device descriptor.
    pub fn decode_data(manufacturer_data: &Vec<u8>) -> (r: Result<
        Self,
        QuecBLEDeviceDecodeError,
    >)
        ensures
            manufacturer_data@.len() < 19 ==> (r matches Err(
                QuecBLEDeviceDecodeError::DataTooShort,
            )),
            manufacturer_data@.len() >= 19 && be16(manufacturer_data@[0], manufacturer_data@[1])
                != 0x4543 ==> (r matches Err(QuecBLEDeviceDecodeError::InvalidHeader(h)) && h
                == be16(manufacturer_data@[0], manufacturer_data@[1])),
            ({
                let d = manufacturer_data@;
                d.len() >= 19 && be16(d[0], d[1]) == 0x4543 && pk_end(d) > d.len()
            }) ==> (r matches Err(QuecBLEDeviceDecodeError::InsufficientFieldData(name, lb))
                && name@ == "product_key"@ && lb == manufacturer_data@[4]),
            ({
                let d = manufacturer_data@;
                d.len() >= 19 && be16(d[0], d[1]) == 0x4543 && pk_end(d) <= d.len() && pk_end(d)
                    + 1 > d.len()
            }) ==> (r matches Err(QuecBLEDeviceDecodeError::DataTooShort)),
            ({
                let d = manufacturer_data@;
                d.len() >= 19 && be16(d[0], d[1]) == 0x4543 && pk_end(d) + 1 <= d.len() && dk_end(
                    d,
                ) > d.len()
            }) ==> (r matches Err(QuecBLEDeviceDecodeError::InsufficientFieldData(name, lb))
                && name@ == "device_key"@ && lb == manufacturer_data@[pk_end(
                manufacturer_data@,
            )]),
            ({
                let d = manufacturer_data@;
                d.len() >= 19 && be16(d[0], d[1]) == 0x4543 && dk_end(d) <= d.len() && dk_end(d)
                    + 1 > d.len()
            }) ==> (r matches Err(QuecBLEDeviceDecodeError::DataTooShort)),
            adv_outcome_ok(manufacturer_data@) <==> r is Ok,
            r matches Ok(dev) ==> {
                let d = manufacturer_data@;
                &&& dev.version == be16(d[2], d[3])
                &&& dev.product_key@ == utf8_lossy_of(pk_bytes(d))
                &&& dev.device_key@ == spec_device_key(dk_bytes(d), adv_flags(d))
                &&& dev.device_status == d[dk_end(d)]
                &&& dev.capabilities_bitmask == adv_flags(d)
                &&& dev.is_cl_dk == spec_bit(adv_flags(d), 0)
                &&& dev.is_wifi_config == spec_bit(adv_flags(d), 1)
                &&& dev.is_bind == spec_bit(adv_flags(d), 2)
                &&& dev.is_enable_bind == spec_bit(adv_flags(d), 3)
                &&& dev.endpoint_type == ((adv_flags(d) >> 4) & 0x0f) as u8
                &&& dev.is_old_device == spec_bit(adv_flags(d), 8)
                &&& dev.id@.len() == 0
                &&& dev.name@.len() == 0
                &&& dev.mac@.len() == 0
                &&& dev.tag@ == "QUEC"@
            },
    {
        let d = manufacturer_data.as_slice();
        let ghost dv = manufacturer_data@;
        if d.len() < 19 {
            return Err(QuecBLEDeviceDecodeError::DataTooShort);
        }
        let b0 = d[0];
        let b1 = d[1];
        let header: u16 = (b0 as u16) * 256 + (b1 as u16);
        proof {
            assert(header == be16(dv[0], dv[1]));
        }
        if !(b0 == 0x45 && b1 == 0x43) {
            proof {
                assert(be16(dv[0], dv[1]) != 0x4543);
            }
            return Err(QuecBLEDeviceDecodeError::InvalidHeader(header));
        }
        let version: u16 = (d[2] as u16) * 256 + (d[3] as u16);
        let pk_len = d[4] as usize;
        if pk_len > d.len() - 5 {
            proof {
                reveal_strlit("product_key");
            }
            return Err(
                QuecBLEDeviceDecodeError::InsufficientFieldData(
                    String::from_str("product_key"),
                    d[4],
                ),
            );
        }
        let pk_end_i = 5 + pk_len;
        let pk_raw = vstd::slice::slice_subrange(d, 5, pk_end_i);
        let pk = utf8_lossy(pk_raw);
        if pk_end_i >= d.len() {
            return Err(QuecBLEDeviceDecodeError::DataTooShort);
        }
        let dk_len = d[pk_end_i] as usize;
        if dk_len > d.len() - pk_end_i - 1 {
            proof {
                reveal_strlit("device_key");
            }
            return Err(
                QuecBLEDeviceDecodeError::InsufficientFieldData(
                    String::from_str("device_key"),
                    d[pk_end_i],
                ),
            );
        }
        let dk_end_i = pk_end_i + 1 + dk_len;
        let dk_raw = vstd::slice::slice_subrange(d, pk_end_i + 1, dk_end_i);
        if dk_end_i >= d.len() {
            return Err(QuecBLEDeviceDecodeError::DataTooShort);
        }
        let status = d[dk_end_i];
        let flags: u16 = if d.len() - dk_end_i >= 3 {
            (d[dk_end_i + 1] as u16) * 256 + (d[dk_end_i + 2] as u16)
        } else {
            0
        };
        proof {
            assert(flags == adv_flags(dv));
            lemma_hex_index(dk_raw@);
        }
        let upper = check_bit_value(flags, 12);
        let trim = check_bit_value(flags, 8);
        let full_chars = 2 * dk_len;
        let dk_chars = if trim && full_chars > 0 {
            full_chars - 1
        } else {
            full_chars
        };
        let dk = hex_prefix(dk_raw, dk_chars, upper);
        proof {
            let h = if spec_bit(flags, 12) {
                hex_upper_of(dk_bytes(dv))
            } else {
                hex_of(dk_bytes(dv))
            };
            assert(dk_raw@ == dk_bytes(dv));
            assert(h.len() == 2 * dk_len);
            if !(spec_bit(flags, 8) && h.len() > 0) {
                assert(h.take(h.len() as int) =~= h);
            }
        }
        proof {
            reveal_strlit("QUEC");
        }
        Ok(
            QuecBLEDevice {
                id: String::new(),
                name: String::new(),
                mac: String::new(),
                tag: String::from_str("QUEC"),
                version,
                product_key: pk,
                device_key: dk,
                device_status: status,
                capabilities_bitmask: flags,
                is_cl_dk: check_bit_value(flags, 0),
                is_wifi_config: check_bit_value(flags, 1),
                is_bind: check_bit_value(flags, 2),
                is_enable_bind: check_bit_value(flags, 3),
                endpoint_type: ((flags >> 4) & 0x0f) as u8,
                is_old_device: check_bit_value(flags, 8),
            },
        )
    }
}

} // verus!
