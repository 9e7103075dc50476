//! Sony over PTP-IP, through the SDIO extension: what the protocol decides.
//!
//! A ZV-E10 answers the standard handshake but offers no standard property operations; every
//! control sits behind Sony's own 0x92xx operations. `SDIO_GetAllExtDevicePropInfo` returns every
//! property in one transfer: an eight byte header, then descriptors back to back with no count in
//! front of them. Each descriptor carries its code, data type, two flag bytes, the default and the
//! current value, and a range or an enumeration.
//!
//! | Dial | Property | Encoding |
//! |---|---|---|
//! | Shutter | `0xD20D` | UINT32, numerator in the high half, denominator in the low |
//! | Aperture | `0x5007` | UINT16 hundredths: `280` is f/2.8 |
//! | ISO | `0xD21E` | UINT32, the ISO number in the low 24 bits; `0x00FF_FFFF` means auto |

use vstd::prelude::*;

use super::error::{is_protocol, short_message, CameraError, CameraResult};
use super::model::{spec_dial_label, CameraEvent, CameraInfo, Dial, Vendor, VendorProfile};
use super::nikon::{non_empty, opt_view, or_default, spec_non_empty};
use super::ptpip::{
    prop_value_payload, spec_prop_value_bytes, DeviceInfo, spec_take, spec_u16, spec_u32, spec_u8,
    unwritable_type_message, PtpEvent, Reader, TYPE_INT16, TYPE_INT32, TYPE_INT8, TYPE_UINT16,
    TYPE_UINT32, TYPE_UINT8,
};
use crate::text::{
    chars_of, decimal, hex_fixed, owned, parse_bounded, parse_unsigned, push_decimal, push_hex,
    push_str, string_from,
};

verus! {

/// Shown on the camera during the handshake.
pub const CLIENT_NAME: &'static str = "Dusklapse";

// Sony's own operations.
pub const OP_SDIO_CONNECT: u16 = 0x9201;
pub const OP_SDIO_GET_EXT_DEVICE_INFO: u16 = 0x9202;
pub const OP_SDIO_SET_EXT_DEVICE_PROP_VALUE: u16 = 0x9205;
pub const OP_SDIO_GET_ALL_EXT_DEVICE_PROP_INFO: u16 = 0x9209;

/// Protocol version to ask for. A body that does not know it answers with its own highest.
pub const SDIO_PROTOCOL_3_00: u32 = 0x12c;

/// How many times to ask for the extension info before giving up: the body answers with an
/// empty payload until it is ready, and there is nothing else to wait on.
pub const EXT_INFO_ATTEMPTS: u32 = 20;

// Sony's property codes. Aperture is the one place the standard code is reused.
pub const PROP_SHUTTER_SPEED: u16 = 0xD20D;
pub const PROP_F_NUMBER: u16 = 0x5007;
pub const PROP_ISO: u16 = 0xD21E;

/// The ISO number occupies the low 24 bits; the top byte flags multi-frame noise reduction.
pub const ISO_MASK: u32 = 0x00FF_FFFF;
/// An ISO field of all ones is the camera saying "auto", not an ISO of 16777215.
pub const ISO_AUTO: u32 = 0x00FF_FFFF;

// Wider PTP data types, which a Sony descriptor may name.
pub const TYPE_INT64: u16 = 0x0007;
pub const TYPE_UINT64: u16 = 0x0008;
pub const TYPE_INT128: u16 = 0x0009;
pub const TYPE_UINT128: u16 = 0x000A;
/// A text property: no number, but its width has to be measured.
pub const TYPE_STR: u16 = 0xFFFF;
/// Array types are the element type with this bit set, and carry a 32-bit count in front.
pub const TYPE_ARRAY_FLAG: u16 = 0x4000;

// Form flags in a property descriptor.
pub const FORM_NONE: u8 = 0x00;
pub const FORM_RANGE: u8 = 0x01;
pub const FORM_ENUMERATION: u8 = 0x02;

/// `enabled` byte: the camera is offering this control at the moment.
pub const ENABLED: u8 = 1;
/// `get_set` byte: the property can be written, not only read.
pub const GET_SET: u8 = 1;

/// Below this, a word following an enumeration is a second list rather than the next record:
/// a property code is always 0x5xxx or 0xDxxx, a count of selectable values is small.
pub const SECONDARY_LIST_LIMIT: u16 = 0x200;

/// Where the body puts a picture it has just taken.
pub const PROP_STORE_DESTINATION: u16 = 0xD222;
/// Write the card *and* keep a copy in memory: over Wi-Fi the card is invisible, so the copy is
/// the only picture this app can read.
pub const STORE_CARD_AND_MEMORY: u32 = 0x0011;
/// How many pictures are waiting in camera memory, with [`OBJECT_READY`] set once one is done.
pub const PROP_OBJECT_IN_MEMORY: u16 = 0xD215;
/// Below this the frame is still being written, and reading it crashes the camera's firmware.
pub const OBJECT_READY: u32 = 0x8000;
/// The fixed pseudo-handle of the picture waiting in memory.
pub const PENDING_OBJECT: u32 = 0xFFFF_C001;

/// One exposure finished, when the body saves to the card alone.
pub const EVENT_SONY_CAPTURED: u16 = 0xC206;
/// A picture is waiting in memory, when the body saves to card and memory - once per file.
pub const EVENT_SONY_OBJECT_ADDED: u16 = 0xC201;
/// Two frame events closer together than this, in nanoseconds, are one frame.
pub const FRAME_DEBOUNCE_NANOS: u64 = 500_000_000;

/// What the connect screen shows for this vendor.
pub open spec fn is_profile(p: VendorProfile) -> bool {
    &&& p.vendor == Vendor::Sony
    &&& p.label@ == "Sony"@
    &&& p.summary@ == "PTP-IP - use 'PC Remote Function' with Wi-Fi Direct"@
    &&& p.default_port == 15740
    &&& p.access_point_host matches Some(h) && h@ == "192.168.122.1"@
    &&& p.needs_address
    &&& p.implemented
    &&& !p.developer_only
}

/// What the connect screen shows for Sony.
pub fn profile() -> (r: VendorProfile)
    ensures
        is_profile(r),
{
    VendorProfile {
        vendor: Vendor::Sony,
        label: owned(Vendor::Sony.label()),
        summary: owned("PTP-IP - use 'PC Remote Function' with Wi-Fi Direct"),
        default_port: Vendor::Sony.default_port(),
        access_point_host: Some(owned("192.168.122.1")),
        needs_address: true,
        implemented: true,
        developer_only: false,
    }
}

/// Identity of a Sony body from its DeviceInfo.
pub fn camera_info(device: &DeviceInfo) -> (r: CameraInfo)
    ensures
        r.vendor == Vendor::Sony,
        r.manufacturer@ == (match spec_non_empty(device.manufacturer@) {
            Some(m) => m,
            None => "Sony"@,
        }),
        r.model@ == (match spec_non_empty(device.model@) {
            Some(m) => m,
            None => "Unknown body"@,
        }),
        opt_view(r.serial) == spec_non_empty(device.serial@),
        opt_view(r.firmware) == spec_non_empty(device.device_version@),
        r.api_version is None,
        !r.supports_release,
        r.pushes_events,
{
    CameraInfo {
        vendor: Vendor::Sony,
        manufacturer: or_default(non_empty(device.manufacturer.as_str()), "Sony"),
        model: or_default(non_empty(device.model.as_str()), "Unknown body"),
        serial: non_empty(device.serial.as_str()),
        firmware: non_empty(device.device_version.as_str()),
        api_version: None,
        // No capture path is confirmed over Wi-Fi.
        supports_release: false,
        pushes_events: true,
    }
}

/// A property as the camera described it.
#[derive(Debug, Clone)]
pub struct SonyProp {
    pub code: u16,
    pub datatype: u16,
    pub current: u32,
    /// Whether the camera says this value can be set *right now*.
    pub writable: bool,
    /// What the dial may be set to; empty for a property described by a range.
    pub values: Vec<u32>,
}

pub struct SonyPropView {
    pub code: u16,
    pub datatype: u16,
    pub current: u32,
    pub writable: bool,
    pub values: Seq<u32>,
}

impl View for SonyProp {
    type V = SonyPropView;

    open spec fn view(&self) -> SonyPropView {
        SonyPropView {
            code: self.code,
            datatype: self.datatype,
            current: self.current,
            writable: self.writable,
            values: self.values@,
        }
    }
}

pub open spec fn spec_writable(get_set: u8, enabled: u8) -> bool {
    enabled == ENABLED && get_set == GET_SET
}

/// Whether a descriptor's two flag bytes say the value can be set: `enabled` is the camera's
/// live judgement (1 available, 0 greyed out, 2 shown but not offered) and `get_set` the
/// property's own nature.
pub fn writable(get_set: u8, enabled: u8) -> (r: bool)
    ensures
        r == spec_writable(get_set, enabled),
{
    enabled == ENABLED && get_set == GET_SET
}

pub open spec fn spec_fixed_width(datatype: u16) -> Option<usize> {
    if datatype == TYPE_INT8 || datatype == TYPE_UINT8 {
        Some(1)
    } else if datatype == TYPE_INT16 || datatype == TYPE_UINT16 {
        Some(2)
    } else if datatype == TYPE_INT32 || datatype == TYPE_UINT32 {
        Some(4)
    } else if datatype == TYPE_INT64 || datatype == TYPE_UINT64 {
        Some(8)
    } else if datatype == TYPE_INT128 || datatype == TYPE_UINT128 {
        Some(16)
    } else {
        None
    }
}

/// Bytes one value of a fixed-width type occupies, or `None` for the variable-width ones.
pub fn fixed_width(datatype: u16) -> (r: Option<usize>)
    ensures
        r == spec_fixed_width(datatype),
{
    if datatype == TYPE_INT8 || datatype == TYPE_UINT8 {
        Some(1)
    } else if datatype == TYPE_INT16 || datatype == TYPE_UINT16 {
        Some(2)
    } else if datatype == TYPE_INT32 || datatype == TYPE_UINT32 {
        Some(4)
    } else if datatype == TYPE_INT64 || datatype == TYPE_UINT64 {
        Some(8)
    } else if datatype == TYPE_INT128 || datatype == TYPE_UINT128 {
        Some(16)
    } else {
        None
    }
}

pub open spec fn skip_to_zero(r: Option<(Seq<u8>, int)>) -> Option<(u32, int)> {
    match r {
        Some((_, q)) => Some((0u32, q)),
        None => None,
    }
}

/// One value of a descriptor, widened to `u32`, and where it ends.
///
/// The fixed-width numeric types up to 32 bits are kept. Wider ones, text and arrays are
/// stepped over by their exact width and read as zero: no dial is one of them, but losing the
/// cursor would lose every descriptor after them. Any other type has no width to compute.
pub open spec fn spec_read_value(s: Seq<u8>, at: int, datatype: u16) -> Option<(u32, int)> {
    if datatype == TYPE_INT8 || datatype == TYPE_UINT8 {
        match spec_u8(s, at) {
            Some((b, p)) => Some((b as u32, p)),
            None => None,
        }
    } else if datatype == TYPE_INT16 || datatype == TYPE_UINT16 {
        match spec_u16(s, at) {
            Some((w, p)) => Some((w as u32, p)),
            None => None,
        }
    } else if datatype == TYPE_INT32 || datatype == TYPE_UINT32 {
        spec_u32(s, at)
    } else if datatype == TYPE_INT64 || datatype == TYPE_UINT64 {
        skip_to_zero(spec_take(s, at, 8))
    } else if datatype == TYPE_INT128 || datatype == TYPE_UINT128 {
        skip_to_zero(spec_take(s, at, 16))
    } else if datatype == TYPE_STR {
        match spec_u8(s, at) {
            Some((n, p)) => skip_to_zero(spec_take(s, p, 2 * n)),
            None => None,
        }
    } else if datatype & TYPE_ARRAY_FLAG != 0 {
        match spec_fixed_width(datatype & !TYPE_ARRAY_FLAG) {
            None => None,
            Some(width) => match spec_u32(s, at) {
                Some((count, p)) => skip_to_zero(spec_take(s, p, count * width)),
                None => None,
            },
        }
    } else {
        None
    }
}

pub open spec fn array_type_message(element: u16) -> Seq<char> {
    "array of unsupported type 0x"@ + hex_fixed(element as nat, 4)
}

pub open spec fn array_claims_message(element: u16, count: nat) -> Seq<char> {
    "array of 0x"@ + hex_fixed(element as nat, 4) + " claims "@ + decimal(count) + " elements"@
}

pub open spec fn unsupported_value_message(datatype: u16) -> Seq<char> {
    "unsupported data type 0x"@ + hex_fixed(datatype as nat, 4)
}

/// Why a value could not be read: an array of a type with no fixed width, an array whose
/// length cannot even be represented, a data type with no width at all, or else the data ran
/// out.
pub open spec fn read_value_error(s: Seq<u8>, at: int, datatype: u16) -> Seq<char> {
    if spec_fixed_width(datatype) is Some || datatype == TYPE_STR {
        short_message()
    } else if datatype & TYPE_ARRAY_FLAG != 0 {
        let element = datatype & !TYPE_ARRAY_FLAG;
        match spec_fixed_width(element) {
            None => array_type_message(element),
            Some(width) => match spec_u32(s, at) {
                Some((count, _)) => if count * width > usize::MAX {
                    array_claims_message(element, count as nat)
                } else {
                    short_message()
                },
                None => short_message(),
            },
        }
    } else {
        unsupported_value_message(datatype)
    }
}

/// Read one value of the given data type, widened to `u32`.
fn read_value(reader: &mut Reader, datatype: u16) -> (r: CameraResult<u32>)
    ensures
        final(reader).bytes() == old(reader).bytes(),
        r is Ok ==> spec_read_value(old(reader).bytes(), old(reader).pos(), datatype) == Some(
            (r->Ok_0, final(reader).pos()),
        ),
        r is Err ==> spec_read_value(old(reader).bytes(), old(reader).pos(), datatype) is None
            && is_protocol(r->Err_0, read_value_error(old(reader).bytes(), old(reader).pos(), datatype)),
{
    if datatype == TYPE_INT8 || datatype == TYPE_UINT8 {
        Ok(reader.u8()? as u32)
    } else if datatype == TYPE_INT16 || datatype == TYPE_UINT16 {
        Ok(reader.u16()? as u32)
    } else if datatype == TYPE_INT32 || datatype == TYPE_UINT32 {
        reader.u32()
    } else if datatype == TYPE_INT64 || datatype == TYPE_UINT64 {
        reader.take(8)?;
        Ok(0)
    } else if datatype == TYPE_INT128 || datatype == TYPE_UINT128 {
        reader.take(16)?;
        Ok(0)
    } else if datatype == TYPE_STR {
        let characters = reader.u8()? as usize;
        reader.take(characters * 2)?;
        Ok(0)
    } else if datatype & TYPE_ARRAY_FLAG != 0 {
        let element = datatype & !TYPE_ARRAY_FLAG;
        let width = match fixed_width(element) {
            Some(w) => w,
            None => {
                let mut m: Vec<char> = Vec::new();
                push_str(&mut m, "array of unsupported type 0x");
                push_hex(&mut m, element as u64, 4);
                assert(m@ =~= array_type_message(element));
                return Err(CameraError::Protocol(string_from(m.as_slice())));
            },
        };
        let count = reader.u32()? as usize;
        let total = match count.checked_mul(width) {
            Some(t) => t,
            None => {
                proof {
                    reader.lemma_bytes_fit();
                }
                let mut m: Vec<char> = Vec::new();
                push_str(&mut m, "array of 0x");
                push_hex(&mut m, element as u64, 4);
                push_str(&mut m, " claims ");
                push_decimal(&mut m, count as u64);
                push_str(&mut m, " elements");
                assert(m@ =~= array_claims_message(element, count as nat));
                return Err(CameraError::Protocol(string_from(m.as_slice())));
            },
        };
        reader.take(total)?;
        Ok(0)
    } else {
        let mut m: Vec<char> = Vec::new();
        push_str(&mut m, "unsupported data type 0x");
        push_hex(&mut m, datatype as u64, 4);
        assert(m@ =~= unsupported_value_message(datatype));
        Err(CameraError::Protocol(string_from(m.as_slice())))
    }
}

/// `count` values back to back.
pub open spec fn spec_value_run(s: Seq<u8>, at: int, datatype: u16, count: nat) -> Option<
    (Seq<u32>, int),
>
    decreases count,
{
    if count == 0 {
        Some((Seq::empty(), at))
    } else {
        match spec_read_value(s, at, datatype) {
            None => None,
            Some((v, p)) => match spec_value_run(s, p, datatype, (count - 1) as nat) {
                Some((vs, q)) => Some((seq![v] + vs, q)),
                None => None,
            },
        }
    }
}

/// An enumeration: a 16-bit count, then that many values.
pub open spec fn spec_enumeration(s: Seq<u8>, at: int, datatype: u16) -> Option<(Seq<u32>, int)> {
    match spec_u16(s, at) {
        Some((n, p)) => spec_value_run(s, p, datatype, n as nat),
        None => None,
    }
}

pub open spec fn after_run(front: Seq<u32>, rest: Option<(Seq<u32>, int)>) -> Option<
    (Seq<u32>, int),
> {
    match rest {
        Some((r, p)) => Some((front + r, p)),
        None => None,
    }
}

/// Why `count` values could not be read: the first that fails says.
pub open spec fn value_run_error(s: Seq<u8>, at: int, datatype: u16, count: nat) -> Seq<char>
    decreases count,
{
    if count == 0 {
        short_message()
    } else {
        match spec_read_value(s, at, datatype) {
            None => read_value_error(s, at, datatype),
            Some((_, p)) => value_run_error(s, p, datatype, (count - 1) as nat),
        }
    }
}

/// Why an enumeration could not be read: its count, or the first value that fails.
pub open spec fn enumeration_error(s: Seq<u8>, at: int, datatype: u16) -> Seq<char> {
    match spec_u16(s, at) {
        Some((n, p)) => value_run_error(s, p, datatype, n as nat),
        None => short_message(),
    }
}

/// A count followed by that many values.
fn read_enumeration(reader: &mut Reader, datatype: u16) -> (r: CameraResult<Vec<u32>>)
    ensures
        final(reader).bytes() == old(reader).bytes(),
        r is Ok ==> spec_enumeration(old(reader).bytes(), old(reader).pos(), datatype) == Some(
            (r->Ok_0@, final(reader).pos()),
        ),
        r is Err ==> spec_enumeration(old(reader).bytes(), old(reader).pos(), datatype) is None
            && is_protocol(r->Err_0, enumeration_error(old(reader).bytes(), old(reader).pos(), datatype)),
{
    let count = reader.u16()?;
    let ghost s = reader.bytes();
    let ghost start = reader.pos();
    let mut values: Vec<u32> = Vec::new();
    let mut k: u16 = 0;
    while k < count
        invariant
            k <= count,
            reader.bytes() == s,
            s == old(reader).bytes(),
            spec_u16(s, old(reader).pos()) == Some((count, start)),
            spec_value_run(s, start, datatype, count as nat) == after_run(
                values@,
                spec_value_run(s, reader.pos(), datatype, (count - k) as nat),
            ),
            value_run_error(s, start, datatype, count as nat) == value_run_error(
                s,
                reader.pos(),
                datatype,
                (count - k) as nat,
            ),
        decreases count - k,
    {
        let ghost before = values@;
        let v = read_value(reader, datatype)?;
        values.push(v);
        k = k + 1;
        proof {
            match spec_value_run(s, reader.pos(), datatype, (count - k) as nat) {
                Some((vs, q)) => {
                    assert(before + (seq![v] + vs) =~= values@ + vs);
                },
                None => {},
            }
        }
    }
    assert(values@ + Seq::<u32>::empty() =~= values@);
    Ok(values)
}

pub open spec fn skip_values(r: Option<(u32, int)>, s: Seq<u8>, datatype: u16, n: nat) -> Option<
    (Seq<u32>, int),
> {
    match r {
        None => None,
        Some((_, p)) => match spec_value_run(s, p, datatype, n) {
            Some((_, q)) => Some((Seq::empty(), q)),
            None => None,
        },
    }
}

/// The selectable values a form declares: an enumeration's list, nothing for a range (its three
/// bounds are read and dropped) or for no form, and `None` for an unknown flag.
pub open spec fn spec_form_values(s: Seq<u8>, at: int, datatype: u16, form: u8) -> Option<
    (Seq<u32>, int),
> {
    if form == FORM_ENUMERATION {
        spec_enumeration(s, at, datatype)
    } else if form == FORM_RANGE {
        skip_values(Some((0u32, at)), s, datatype, 3)
    } else if form == FORM_NONE {
        Some((Seq::empty(), at))
    } else {
        None
    }
}

/// After an enumeration, a small 16-bit word starts a second list, which replaces the first
/// unless it is empty. Anything else is the next record and is left alone.
pub open spec fn spec_second_list(s: Seq<u8>, at: int, datatype: u16, first: Seq<u32>) -> Option<
    (Seq<u32>, int),
> {
    match spec_u16(s, at) {
        Some((next, _)) => if next < SECONDARY_LIST_LIMIT {
            match spec_enumeration(s, at, datatype) {
                Some((vs, q)) => Some((if vs.len() > 0 { vs } else { first }, q)),
                None => None,
            }
        } else {
            Some((first, at))
        },
        None => Some((first, at)),
    }
}

/// One descriptor: code, data type, the get/set and enabled bytes, default and current value,
/// then the form.
pub open spec fn spec_sony_prop(s: Seq<u8>, at: int) -> Option<(SonyPropView, int)> {
    if let Some((code, p1)) = spec_u16(s, at) {
        if let Some((datatype, p2)) = spec_u16(s, p1) {
            if let Some((get_set, p3)) = spec_u8(s, p2) {
                if let Some((enabled, p4)) = spec_u8(s, p3) {
                    if let Some((_, p5)) = spec_read_value(s, p4, datatype) {
                        if let Some((current, p6)) = spec_read_value(s, p5, datatype) {
                            if let Some((form, p7)) = spec_u8(s, p6) {
                                if let Some((first, p8)) = spec_form_values(s, p7, datatype, form) {
                                    let after = if form == FORM_ENUMERATION {
                                        spec_second_list(s, p8, datatype, first)
                                    } else {
                                        Some((first, p8))
                                    };
                                    match after {
                                        Some((values, p9)) => Some(
                                            (
                                                SonyPropView {
                                                    code,
                                                    datatype,
                                                    current,
                                                    writable: spec_writable(get_set, enabled),
                                                    values,
                                                },
                                                p9,
                                            ),
                                        ),
                                        None => None,
                                    }
                                } else {
                                    None
                                }
                            } else {
                                None
                            }
                        } else {
                            None
                        }
                    } else {
                        None
                    }
                } else {
                    None
                }
            } else {
                None
            }
        } else {
            None
        }
    } else {
        None
    }
}

pub open spec fn form_flag_message(code: u16, form: u8) -> Seq<char> {
    "property 0x"@ + hex_fixed(code as nat, 4) + " has form flag 0x"@
        + hex_fixed(form as nat, 2)
}

/// Why a form's values could not be read: an unknown form flag, or the values themselves.
pub open spec fn form_values_error(s: Seq<u8>, at: int, datatype: u16, form: u8, code: u16) -> Seq<
    char,
> {
    if form == FORM_ENUMERATION {
        enumeration_error(s, at, datatype)
    } else if form == FORM_RANGE {
        value_run_error(s, at, datatype, 3)
    } else if form == FORM_NONE {
        short_message()
    } else {
        form_flag_message(code, form)
    }
}

/// The values a form declares, read from `reader`.
fn read_form_values(reader: &mut Reader, datatype: u16, form: u8, code: u16) -> (r: CameraResult<
    Vec<u32>,
>)
    ensures
        final(reader).bytes() == old(reader).bytes(),
        r is Ok ==> spec_form_values(old(reader).bytes(), old(reader).pos(), datatype, form)
            == Some((r->Ok_0@, final(reader).pos())),
        r is Err ==> spec_form_values(old(reader).bytes(), old(reader).pos(), datatype, form)
            is None && is_protocol(
            r->Err_0,
            form_values_error(old(reader).bytes(), old(reader).pos(), datatype, form, code),
        ),
{
    if form == FORM_ENUMERATION {
        read_enumeration(reader, datatype)
    } else if form == FORM_RANGE {
        // Minimum, maximum and step, read to keep the cursor aligned and then dropped.
        proof {
            reveal_with_fuel(spec_value_run, 4);
            reveal_with_fuel(value_run_error, 4);
        }
        read_value(reader, datatype)?;
        read_value(reader, datatype)?;
        read_value(reader, datatype)?;
        Ok(Vec::new())
    } else if form == FORM_NONE {
        Ok(Vec::new())
    } else {
        let mut m: Vec<char> = Vec::new();
        push_str(&mut m, "property 0x");
        push_hex(&mut m, code as u64, 4);
        push_str(&mut m, " has form flag 0x");
        push_hex(&mut m, form as u64, 2);
        assert(m@ =~= form_flag_message(code, form));
        Err(CameraError::Protocol(string_from(m.as_slice())))
    }
}

/// The list that may follow an enumeration, replacing `first` unless it is empty.
fn read_second_list(reader: &mut Reader, datatype: u16, first: Vec<u32>) -> (r: CameraResult<
    Vec<u32>,
>)
    ensures
        final(reader).bytes() == old(reader).bytes(),
        r is Ok ==> spec_second_list(old(reader).bytes(), old(reader).pos(), datatype, first@)
            == Some((r->Ok_0@, final(reader).pos())),
        r is Err ==> spec_second_list(old(reader).bytes(), old(reader).pos(), datatype, first@)
            is None && is_protocol(
            r->Err_0,
            enumeration_error(old(reader).bytes(), old(reader).pos(), datatype),
        ),
{
    let second = match reader.peek_u16() {
        Ok(next) => next < SECONDARY_LIST_LIMIT,
        Err(_) => false,
    };
    if second {
        let replacement = read_enumeration(reader, datatype)?;
        if replacement.len() > 0 {
            Ok(replacement)
        } else {
            Ok(first)
        }
    } else {
        Ok(first)
    }
}

/// Why a descriptor could not be read: the first field that fails says.
pub open spec fn sony_prop_error(s: Seq<u8>, at: int) -> Seq<char> {
    match spec_u16(s, at) {
        None => short_message(),
        Some((code, p1)) => match spec_u16(s, p1) {
            None => short_message(),
            Some((datatype, p2)) => match spec_u8(s, p2) {
                None => short_message(),
                Some((_, p3)) => match spec_u8(s, p3) {
                    None => short_message(),
                    Some((_, p4)) => match spec_read_value(s, p4, datatype) {
                        None => read_value_error(s, p4, datatype),
                        Some((_, p5)) => match spec_read_value(s, p5, datatype) {
                            None => read_value_error(s, p5, datatype),
                            Some((_, p6)) => match spec_u8(s, p6) {
                                None => short_message(),
                                Some((form, p7)) => match spec_form_values(s, p7, datatype, form) {
                                    None => form_values_error(s, p7, datatype, form, code),
                                    // Only a second enumeration is left to fail.
                                    Some((_, p8)) => enumeration_error(s, p8, datatype),
                                },
                            },
                        },
                    },
                },
            },
        },
    }
}

/// Read one descriptor.
fn parse_prop(reader: &mut Reader) -> (r: CameraResult<SonyProp>)
    ensures
        final(reader).bytes() == old(reader).bytes(),
        r is Ok ==> spec_sony_prop(old(reader).bytes(), old(reader).pos()) == Some(
            (r->Ok_0@, final(reader).pos()),
        ) && final(reader).pos() > old(reader).pos(),
        r is Err ==> spec_sony_prop(old(reader).bytes(), old(reader).pos()) is None
            && is_protocol(r->Err_0, sony_prop_error(old(reader).bytes(), old(reader).pos())),
{
    let ghost s = reader.bytes();
    let code = reader.u16()?;
    let datatype = reader.u16()?;
    let get_set = reader.u8()?;
    let enabled = reader.u8()?;

    read_value(reader, datatype)?;  // default value, never used
    let current = read_value(reader, datatype)?;

    let form = reader.u8()?;
    let ghost p7 = reader.pos();
    let first = read_form_values(reader, datatype, form, code)?;
    let ghost p8 = reader.pos();
    proof {
        lemma_form_values_advance(s, p7, datatype, form);
    }
    // A second enumeration may follow the first, and where it does it is the one that counts.
    let values = if form == FORM_ENUMERATION {
        read_second_list(reader, datatype, first)?
    } else {
        first
    };
    proof {
        lemma_second_list_advance(s, p8, datatype, first@);
    }
    Ok(SonyProp { code, datatype, current, writable: writable(get_set, enabled), values })
}

/// The descriptors from `at` on, read until the bytes run out or one cannot be read.
pub open spec fn spec_inventory(s: Seq<u8>, at: int) -> Seq<SonyPropView>
    decreases s.len() - at,
{
    if 0 <= at < s.len() {
        match spec_sony_prop(s, at) {
            Some((p, q)) => if at < q <= s.len() {
                seq![p] + spec_inventory(s, q)
            } else {
                Seq::empty()
            },
            None => Seq::empty(),
        }
    } else {
        Seq::empty()
    }
}

/// The reply to `GetAllExtDevicePropInfo`: eight bytes of header, then descriptors back to back.
/// The count in the header is not trusted to end the run; a descriptor that cannot be read ends
/// it, keeping everything before it.
pub open spec fn spec_all_props(raw: Seq<u8>) -> Option<Seq<SonyPropView>> {
    if raw.len() <= 8 {
        None
    } else {
        Some(spec_inventory(raw.subrange(8, raw.len() as int), 0))
    }
}

pub open spec fn views(props: Seq<SonyProp>) -> Seq<SonyPropView> {
    props.map_values(|p: SonyProp| p@)
}

pub open spec fn short_inventory_message(len: nat) -> Seq<char> {
    "property inventory is only "@ + decimal(len) + " bytes"@
}

proof fn lemma_value_end(s: Seq<u8>, at: int, datatype: u16)
    requires
        0 <= at <= s.len(),
    ensures
        spec_read_value(s, at, datatype) matches Some((_, q)) ==> at < q <= s.len(),
{
}

proof fn lemma_run_end(s: Seq<u8>, at: int, datatype: u16, n: nat)
    requires
        0 <= at <= s.len(),
    ensures
        spec_value_run(s, at, datatype, n) matches Some((_, q)) ==> at <= q <= s.len(),
    decreases n,
{
    if n > 0 {
        lemma_value_end(s, at, datatype);
        if let Some((_, p)) = spec_read_value(s, at, datatype) {
            lemma_run_end(s, p, datatype, (n - 1) as nat);
        }
    }
}

proof fn lemma_enumeration_end(s: Seq<u8>, at: int, datatype: u16)
    requires
        0 <= at <= s.len(),
    ensures
        spec_enumeration(s, at, datatype) matches Some((_, q)) ==> at <= q <= s.len(),
{
    if let Some((n, p)) = spec_u16(s, at) {
        lemma_run_end(s, p, datatype, n as nat);
    }
}

proof fn lemma_form_values_advance(s: Seq<u8>, at: int, datatype: u16, form: u8)
    requires
        0 <= at,
    ensures
        spec_form_values(s, at, datatype, form) matches Some((_, q)) ==> at <= q,
        0 <= at <= s.len() ==> (spec_form_values(s, at, datatype, form) matches Some((_, q))
            ==> q <= s.len()),
{
    if at <= s.len() {
        lemma_enumeration_end(s, at, datatype);
        lemma_run_end(s, at, datatype, 3);
    } else {
        lemma_enumeration_beyond(s, at, datatype);
        lemma_run_beyond(s, at, datatype, 3);
    }
}

proof fn lemma_run_beyond(s: Seq<u8>, at: int, datatype: u16, n: nat)
    requires
        at > s.len(),
    ensures
        spec_value_run(s, at, datatype, n) matches Some((_, q)) ==> q == at && n == 0,
    decreases n,
{
}

proof fn lemma_enumeration_beyond(s: Seq<u8>, at: int, datatype: u16)
    requires
        at > s.len(),
    ensures
        spec_enumeration(s, at, datatype) is None,
{
}

proof fn lemma_second_list_advance(s: Seq<u8>, at: int, datatype: u16, first: Seq<u32>)
    requires
        0 <= at,
    ensures
        spec_second_list(s, at, datatype, first) matches Some((_, q)) ==> at <= q,
        0 <= at <= s.len() ==> (spec_second_list(s, at, datatype, first) matches Some((_, q))
            ==> q <= s.len()),
{
    if at <= s.len() {
        lemma_enumeration_end(s, at, datatype);
    }
}

/// A descriptor that reads ends within the bytes it was read from.
proof fn lemma_prop_end(s: Seq<u8>, at: int)
    requires
        0 <= at <= s.len(),
    ensures
        spec_sony_prop(s, at) matches Some((_, q)) ==> q <= s.len(),
{
    if let Some((code, p1)) = spec_u16(s, at) {
        if let Some((datatype, p2)) = spec_u16(s, p1) {
            if let Some((get_set, p3)) = spec_u8(s, p2) {
                if let Some((enabled, p4)) = spec_u8(s, p3) {
                    lemma_value_end(s, p4, datatype);
                    if let Some((_, p5)) = spec_read_value(s, p4, datatype) {
                        lemma_value_end(s, p5, datatype);
                        if let Some((current, p6)) = spec_read_value(s, p5, datatype) {
                            if let Some((form, p7)) = spec_u8(s, p6) {
                                lemma_form_values_advance(s, p7, datatype, form);
                                if let Some((first, p8)) = spec_form_values(s, p7, datatype, form) {
                                    lemma_second_list_advance(s, p8, datatype, first);
                                }
                            }
                        }
                    }
                }
            }
        }
    }
}

pub fn parse_all_props(raw: &[u8]) -> (r: CameraResult<Vec<SonyProp>>)
    ensures
        r is Ok ==> spec_all_props(raw@) == Some(views(r->Ok_0@)),
        r is Err ==> spec_all_props(raw@) is None && r->Err_0 is Protocol && is_protocol(
            r->Err_0,
            short_inventory_message(raw@.len()),
        ),
{
    let len = raw.len();
    if len <= 8 {
        let mut m: Vec<char> = Vec::new();
        push_str(&mut m, "property inventory is only ");
        push_decimal(&mut m, len as u64);
        push_str(&mut m, " bytes");
        return Err(CameraError::Protocol(string_from(m.as_slice())));
    }
    let body = vstd::slice::slice_subrange(raw, 8, len);
    let mut reader = Reader::new(body);
    let mut props: Vec<SonyProp> = Vec::new();
    while reader.remaining() > 0
        invariant
            reader.bytes() == body@,
            raw@.len() > 8,
            body@ == raw@.subrange(8, raw@.len() as int),
            0 <= reader.pos() <= body@.len(),
            spec_inventory(body@, 0) == views(props@) + spec_inventory(body@, reader.pos()),
        decreases body@.len() - reader.pos(),
    {
        let ghost at = reader.pos();
        let ghost before = props@;
        match parse_prop(&mut reader) {
            Ok(prop) => {
                proof {
                    lemma_prop_end(body@, at);
                }
                props.push(prop);
                proof {
                    assert(views(props@) =~= views(before) + seq![prop@]);
                    assert(spec_inventory(body@, at) == seq![prop@] + spec_inventory(
                        body@,
                        reader.pos(),
                    ));
                    assert(views(before) + (seq![prop@] + spec_inventory(body@, reader.pos()))
                        =~= views(props@) + spec_inventory(body@, reader.pos()));
                }
            },
            Err(_) => {
                assert(spec_inventory(body@, at) =~= Seq::<SonyPropView>::empty());
                assert(views(props@) + Seq::<SonyPropView>::empty() =~= views(props@));
                return Ok(props);
            },
        }
    }
    assert(spec_inventory(body@, reader.pos()) =~= Seq::<SonyPropView>::empty());
    assert(views(props@) + Seq::<SonyPropView>::empty() =~= views(props@));
    Ok(props)
}

// ---------------------------------------------------------------------------------------------
// Reading the inventory
// ---------------------------------------------------------------------------------------------

/// Where `code` sits in an inventory: the last descriptor carrying it, as a map built from the
/// inventory in order would keep it.
pub open spec fn spec_find(props: Seq<SonyPropView>, code: u16) -> Option<int>
    decreases props.len(),
{
    if props.len() == 0 {
        None
    } else if props.last().code == code {
        Some(props.len() - 1)
    } else {
        spec_find(props.drop_last(), code)
    }
}

/// The descriptor for `code` in an inventory, if the camera reported one.
pub fn find_prop(props: &[SonyProp], code: u16) -> (r: Option<usize>)
    ensures
        match r {
            Some(i) => spec_find(views(props@), code) == Some(i as int) && i < props@.len()
                && props@[i as int].code == code,
            None => spec_find(views(props@), code) is None,
        },
{
    let mut k: usize = props.len();
    assert(props@.subrange(0, k as int) =~= props@);
    while k > 0
        invariant
            k <= props@.len(),
            spec_find(views(props@), code) == spec_find(views(props@.subrange(0, k as int)), code),
        decreases k,
    {
        let ghost front = views(props@.subrange(0, k as int));
        assert(front.last() == props@[k - 1]@);
        assert(front.drop_last() =~= views(props@.subrange(0, k - 1)));
        if props[k - 1].code == code {
            return Some(k - 1);
        }
        k = k - 1;
    }
    assert(views(props@.subrange(0, 0)) =~= Seq::<SonyPropView>::empty());
    None
}

pub open spec fn spec_dial_property(dial: Dial) -> u16 {
    match dial {
        Dial::Shutter => PROP_SHUTTER_SPEED,
        Dial::Aperture => PROP_F_NUMBER,
        Dial::Iso => PROP_ISO,
    }
}

/// Each dial is written through its own Sony property and no other: the shutter through
/// shutter speed (0xD20D), the aperture through the f-number (0x5007), ISO through 0xD21E.
pub proof fn dials_write_their_own_properties(dial: Dial)
    ensures
        dial == Dial::Shutter <==> spec_dial_property(dial) == 0xD20Du16,
        dial == Dial::Aperture <==> spec_dial_property(dial) == 0x5007u16,
        dial == Dial::Iso <==> spec_dial_property(dial) == 0xD21Eu16,
{
}

/// The property behind each dial.
pub fn dial_property(dial: Dial) -> (r: u16)
    ensures
        r == spec_dial_property(dial),
        dial == Dial::Shutter ==> r == 0xD20Du16,
        dial == Dial::Aperture ==> r == 0x5007u16,
        dial == Dial::Iso ==> r == 0xD21Eu16,
{
    match dial {
        Dial::Shutter => PROP_SHUTTER_SPEED,
        Dial::Aperture => PROP_F_NUMBER,
        Dial::Iso => PROP_ISO,
    }
}

/// The store-destination descriptor, where it says the body does not yet keep a copy in memory
/// for this app. A camera that does not report the setting, or already has it, is left alone.
pub fn destination_to_change(props: &[SonyProp]) -> (r: Option<usize>)
    ensures
        match spec_find(views(props@), PROP_STORE_DESTINATION) {
            None => r is None,
            Some(i) => if props@[i].current == STORE_CARD_AND_MEMORY {
                r is None
            } else {
                r == Some(i as usize)
            },
        },
{
    match find_prop(props, PROP_STORE_DESTINATION) {
        None => None,
        Some(i) => if props[i].current == STORE_CARD_AND_MEMORY {
            None
        } else {
            Some(i)
        },
    }
}

/// Whether the picture in camera memory can be fetched.
#[derive(Debug, Clone, Copy, PartialEq, Eq, Structural)]
pub enum MemoryState {
    /// The camera does not say how many pictures wait.
    NotReported,
    /// Still being written; touching it now would crash the camera. Carries the raw count.
    InProgress(u32),
    /// Finished, with this many pictures waiting besides.
    Ready { waiting: u32 },
}

pub open spec fn spec_memory_state(props: Seq<SonyPropView>) -> MemoryState {
    match spec_find(props, PROP_OBJECT_IN_MEMORY) {
        None => MemoryState::NotReported,
        Some(i) => if props[i].current >= OBJECT_READY {
            MemoryState::Ready { waiting: (props[i].current - OBJECT_READY) as u32 }
        } else {
            MemoryState::InProgress(props[i].current)
        },
    }
}

/// Read the object-in-memory count: a picture is real only once the ready bit is set.
pub fn memory_state(props: &[SonyProp]) -> (r: MemoryState)
    ensures
        r == spec_memory_state(views(props@)),
{
    match find_prop(props, PROP_OBJECT_IN_MEMORY) {
        None => MemoryState::NotReported,
        Some(i) => {
            let current = props[i].current;
            if current >= OBJECT_READY {
                MemoryState::Ready { waiting: current - OBJECT_READY }
            } else {
                MemoryState::InProgress(current)
            }
        },
    }
}

/// How many inventories to read while waiting for a picture to finish being written into
/// memory: at the application's interval, about five seconds, longer than a JPEG takes.
pub const READY_ATTEMPTS: u32 = 12;

/// What to do after an inventory read while waiting for the picture in memory.
#[derive(Debug, Clone, Copy, PartialEq, Eq, Structural)]
pub enum ReadyStep {
    /// The camera does not say how many pictures wait: there is nothing to fetch.
    Unreported,
    /// The picture is finished; this many more wait besides it.
    Fetch { waiting: u32 },
    /// Still being written after the last attempt; the count it was stuck at.
    Stuck { count: u32 },
    /// Still being written: wait one interval and read the inventory again.
    Wait,
}

/// Decide after the `attempt`-th inventory read, counting from 1. The copy in memory is never
/// touched before it is finished - reading it early crashes the camera - and the wait gives up
/// at the last attempt rather than going on.
pub fn after_snapshot(state: MemoryState, attempt: u32) -> (r: ReadyStep)
    ensures
        state is NotReported ==> r is Unreported,
        state is Ready ==> r == (ReadyStep::Fetch { waiting: state->waiting }),
        state is InProgress && attempt >= READY_ATTEMPTS ==> r == (ReadyStep::Stuck {
            count: state->InProgress_0,
        }),
        state is InProgress && attempt < READY_ATTEMPTS ==> r is Wait,
{
    match state {
        MemoryState::NotReported => ReadyStep::Unreported,
        MemoryState::Ready { waiting } => ReadyStep::Fetch { waiting },
        MemoryState::InProgress(count) => if attempt >= READY_ATTEMPTS {
            ReadyStep::Stuck { count }
        } else {
            ReadyStep::Wait
        },
    }
}

/// Whether waiting for a write to show can stop: the property is gone, or it no longer holds
/// the value the write replaced. A clamped neighbouring value counts as settled too.
pub fn settled(props: &[SonyProp], property: u16, was: u32) -> (r: bool)
    ensures
        r == match spec_find(views(props@), property) {
            None => true,
            Some(i) => props@[i].current != was,
        },
{
    match find_prop(props, property) {
        None => true,
        Some(i) => props[i].current != was,
    }
}

// ---------------------------------------------------------------------------------------------
// What each descriptor was last seen as
// ---------------------------------------------------------------------------------------------

/// `m` after recording each descriptor's data type and value in order.
pub open spec fn spec_record(m: Map<u16, (u16, u32)>, props: Seq<SonyPropView>) -> Map<
    u16,
    (u16, u32),
>
    decreases props.len(),
{
    if props.len() == 0 {
        m
    } else {
        spec_record(m, props.drop_last()).insert(
            props.last().code,
            (props.last().datatype, props.last().current),
        )
    }
}

/// Data type and last seen value per property, refreshed by every inventory: the width is
/// needed to write at all, and the value tells a write what it replaces.
pub struct KnownProps {
    map: std::collections::HashMap<u16, (u16, u32)>,
}

impl KnownProps {
    pub closed spec fn view(&self) -> Map<u16, (u16, u32)> {
        self.map@
    }

    pub fn new() -> (r: Self)
        ensures
            r.view() == Map::<u16, (u16, u32)>::empty(),
    {
        KnownProps { map: std::collections::HashMap::new() }
    }

    /// Note every descriptor of an inventory. Properties it does not mention keep what an
    /// earlier inventory said of them.
    pub fn record(&mut self, props: &[SonyProp])
        ensures
            final(self).view() == spec_record(old(self).view(), views(props@)),
    {
        broadcast use vstd::std_specs::hash::group_hash_axioms;

        let mut k: usize = 0;
        while k < props.len()
            invariant
                k <= props@.len(),
                self.map@ == spec_record(old(self).view(), views(props@.subrange(0, k as int))),
            decreases props@.len() - k,
        {
            let ghost front = views(props@.subrange(0, k + 1));
            assert(front.drop_last() =~= views(props@.subrange(0, k as int)));
            assert(front.last() == props@[k as int]@);
            self.map.insert(props[k].code, (props[k].datatype, props[k].current));
            k = k + 1;
        }
        assert(props@.subrange(0, props@.len() as int) =~= props@);
    }

    /// Data type and last seen value of `property`.
    pub fn get(&self, property: u16) -> (r: Option<(u16, u32)>)
        ensures
            match r {
                Some(v) => self.view().contains_key(property) && self.view()[property] == v,
                None => !self.view().contains_key(property),
            },
    {
        broadcast use vstd::std_specs::hash::group_hash_axioms;

        match self.map.get(&property) {
            Some(v) => Some(*v),
            None => None,
        }
    }
}

/// A write worked out in full before anything is sent.
pub struct PlannedWrite {
    pub property: u16,
    pub datatype: u16,
    /// The value being written.
    pub raw: u32,
    /// The value it replaces, as the last inventory reported it.
    pub was: u32,
    /// The data phase of `SDIO_SetExtDevicePropValue`.
    pub payload: Vec<u8>,
}

pub open spec fn unknown_property_message(property: u16) -> Seq<char> {
    "property 0x"@ + hex_fixed(property as nat, 4)
}

/// Work out a write of `value` to `dial`.
///
/// The value is the camera's own number in decimal, as the inventory reported it. The data type
/// comes from the last inventory rather than a fresh one, so the property must have appeared in
/// one; the payload is the value at that width.
pub fn plan_write(known: &KnownProps, dial: Dial, value: &str) -> (r: CameraResult<PlannedWrite>)
    ensures
        parse_unsigned(value@, u32::MAX as nat) is None ==> (r matches Err(
            CameraError::ValueNotSelectable { dial: d, value: v },
        ) && d@ == spec_dial_label(dial) && v@ == value@),
        parse_unsigned(value@, u32::MAX as nat) is Some && !known.view().contains_key(
            spec_dial_property(dial),
        ) ==> (r matches Err(CameraError::Unavailable(m)) && m@ == unknown_property_message(
            spec_dial_property(dial),
        )),
        parse_unsigned(value@, u32::MAX as nat) is Some && known.view().contains_key(
            spec_dial_property(dial),
        ) ==> ({
            let n = parse_unsigned(value@, u32::MAX as nat)->Some_0;
            let (datatype, was) = known.view()[spec_dial_property(dial)];
            match spec_prop_value_bytes(datatype, n as u32) {
                Some(bytes) => r matches Ok(w) && w.property == spec_dial_property(dial)
                    && w.datatype == datatype && w.raw == n && w.was == was && w.payload@
                    == bytes,
                None => r matches Err(e) && is_protocol(
                    e,
                    unwritable_type_message(spec_dial_property(dial), datatype),
                ),
            }
        }),
{
    let property = dial_property(dial);
    let text = chars_of(value);
    let raw = match parse_bounded(text.as_slice(), u32::MAX as u64) {
        Some(n) => n as u32,
        None => {
            return Err(
                CameraError::ValueNotSelectable { dial: dial.label(), value: owned(value) },
            );
        },
    };
    let (datatype, was) = match known.get(property) {
        Some(entry) => entry,
        None => {
            let mut m: Vec<char> = Vec::new();
            push_str(&mut m, "property 0x");
            push_hex(&mut m, property as u64, 4);
            return Err(CameraError::Unavailable(string_from(m.as_slice())));
        },
    };
    let payload = prop_value_payload(property, datatype, raw)?;
    Ok(PlannedWrite { property, datatype, raw, was, payload })
}

// ---------------------------------------------------------------------------------------------
// The SDIO handshake
// ---------------------------------------------------------------------------------------------

/// The operation to run next in the SDIO handshake.
pub enum SdioRequest {
    Send { opcode: u16, params: Vec<u32> },
    /// The handshake is complete; property reads and writes are accepted from here on.
    Open,
}

/// Sony's second handshake: `SDIO_Connect` phases 1 and 2, then the extension info asked for
/// until the body answers with something, then phase 3.
pub struct SdioHandshake {
    stage: u8,
    attempts: u32,
}

pub open spec fn never_answered_message() -> Seq<char> {
    "the camera never returned its extension info; the SDIO session cannot be opened"@
}

impl SdioHandshake {
    /// 0 and 1: connect phases 1 and 2; 2: extension info; 3: connect phase 3; 4: open.
    pub closed spec fn stage(&self) -> nat {
        self.stage as nat
    }

    /// How many times the extension info has come back empty.
    pub closed spec fn empty_answers(&self) -> nat {
        self.attempts as nat
    }

    pub closed spec fn well_formed(&self) -> bool {
        self.stage <= 4 && self.attempts < EXT_INFO_ATTEMPTS
    }

    pub fn new() -> (r: Self)
        ensures
            r.well_formed(),
            r.stage() == 0,
            r.empty_answers() == 0,
    {
        SdioHandshake { stage: 0, attempts: 0 }
    }

    pub fn request(&self) -> (r: SdioRequest)
        requires
            self.well_formed(),
        ensures
            self.stage() == 0 ==> (r matches SdioRequest::Send { opcode, params } && opcode
                == OP_SDIO_CONNECT && params@ == seq![1u32, 0u32, 0u32]),
            self.stage() == 1 ==> (r matches SdioRequest::Send { opcode, params } && opcode
                == OP_SDIO_CONNECT && params@ == seq![2u32, 0u32, 0u32]),
            self.stage() == 2 ==> (r matches SdioRequest::Send { opcode, params } && opcode
                == OP_SDIO_GET_EXT_DEVICE_INFO && params@ == seq![SDIO_PROTOCOL_3_00, 1u32]),
            self.stage() == 3 ==> (r matches SdioRequest::Send { opcode, params } && opcode
                == OP_SDIO_CONNECT && params@ == seq![3u32, 0u32, 0u32]),
            self.stage() == 4 ==> r is Open,
    {
        if self.stage == 0 {
            SdioRequest::Send { opcode: OP_SDIO_CONNECT, params: vec![1, 0, 0] }
        } else if self.stage == 1 {
            SdioRequest::Send { opcode: OP_SDIO_CONNECT, params: vec![2, 0, 0] }
        } else if self.stage == 2 {
            SdioRequest::Send {
                opcode: OP_SDIO_GET_EXT_DEVICE_INFO,
                params: vec![SDIO_PROTOCOL_3_00, 1],
            }
        } else if self.stage == 3 {
            SdioRequest::Send { opcode: OP_SDIO_CONNECT, params: vec![3, 0, 0] }
        } else {
            SdioRequest::Open
        }
    }

    /// The request succeeded and its data phase carried `reply_len` bytes.
    ///
    /// Every step but the extension info moves on. The extension info moves on once it carries
    /// something; the twentieth empty answer ends the handshake.
    pub fn answered(&mut self, reply_len: usize) -> (r: CameraResult<()>)
        requires
            old(self).well_formed(),
        ensures
            r is Ok ==> final(self).well_formed(),
            old(self).stage() != 2 && old(self).stage() < 4 ==> r is Ok && final(self).stage()
                == old(self).stage() + 1 && final(self).empty_answers() == old(self).empty_answers(),
            old(self).stage() == 4 ==> r is Ok && final(self).stage() == 4
                && final(self).empty_answers() == old(self).empty_answers(),
            old(self).stage() == 2 && reply_len > 0 ==> r is Ok && final(self).stage() == 3
                && final(self).empty_answers() == old(self).empty_answers(),
            old(self).stage() == 2 && reply_len == 0 && old(self).empty_answers() + 1
                < EXT_INFO_ATTEMPTS ==> r is Ok && final(self).stage() == 2 && final(self).empty_answers() == old(self).empty_answers() + 1,
            old(self).stage() == 2 && reply_len == 0 && old(self).empty_answers() + 1
                == EXT_INFO_ATTEMPTS ==> (r matches Err(e) && is_protocol(
                e,
                never_answered_message(),
            ) && final(self).stage() == 2 && final(self).empty_answers() == old(
                self,
            ).empty_answers()),
    {
        if self.stage == 2 {
            if reply_len > 0 {
                self.stage = 3;
                Ok(())
            } else if self.attempts + 1 < EXT_INFO_ATTEMPTS {
                self.attempts = self.attempts + 1;
                Ok(())
            } else {
                Err(
                    CameraError::Protocol(
                        owned(
                            "the camera never returned its extension info; the SDIO session cannot be opened",
                        ),
                    ),
                )
            }
        } else if self.stage < 4 {
            self.stage = self.stage + 1;
            Ok(())
        } else {
            Ok(())
        }
    }
}

// ---------------------------------------------------------------------------------------------
// Values and events
// ---------------------------------------------------------------------------------------------

pub open spec fn spec_iso_label(raw: u32) -> Seq<char> {
    if raw & ISO_MASK == ISO_AUTO {
        "Auto"@
    } else {
        decimal((raw & ISO_MASK) as nat)
    }
}

/// The ISO a raw value carries, ignoring the noise-reduction flag in the top byte.
pub fn iso_label(raw: u32) -> (r: String)
    ensures
        r@ == spec_iso_label(raw),
{
    let base = raw & ISO_MASK;
    if base == ISO_AUTO {
        owned("Auto")
    } else {
        crate::text::decimal_string(base as u64)
    }
}

/// An exposure time as Sony packs it: numerator in the high half, denominator in the low.
/// `None` for a zero denominator, which is not a time.
pub fn shutter_fraction(raw: u32) -> (r: Option<(u32, u32)>)
    ensures
        (raw & 0xFFFF) == 0 ==> r is None,
        (raw & 0xFFFF) != 0 ==> r == Some((raw >> 16u32, raw & 0xFFFF)),
{
    let numerator = raw >> 16;
    let denominator = raw & 0xFFFF;
    if denominator != 0 {
        Some((numerator, denominator))
    } else {
        None
    }
}

pub open spec fn hex_words(codes: Seq<u16>) -> Seq<char>
    decreases codes.len(),
{
    if codes.len() == 0 {
        Seq::empty()
    } else if codes.len() == 1 {
        "0x"@ + hex_fixed(codes[0] as nat, 4)
    } else {
        hex_words(codes.drop_last()) + " 0x"@ + hex_fixed(codes.last() as nat, 4)
    }
}

/// Codes as the log shows them: `0x` and four hex digits each, separated by spaces, or `none`.
pub fn hex_list(codes: &[u16]) -> (r: String)
    ensures
        codes@.len() == 0 ==> r@ == "none"@,
        codes@.len() > 0 ==> r@ == hex_words(codes@),
{
    if codes.len() == 0 {
        return owned("none");
    }
    let mut m: Vec<char> = Vec::new();
    let mut k: usize = 0;
    while k < codes.len()
        invariant
            k <= codes@.len(),
            m@ == hex_words(codes@.subrange(0, k as int)),
        decreases codes@.len() - k,
    {
        let ghost before = m@;
        if k == 0 {
            push_str(&mut m, "0x");
        } else {
            push_str(&mut m, " 0x");
        }
        push_hex(&mut m, codes[k] as u64, 4);
        k = k + 1;
        proof {
            let front = codes@.subrange(0, k as int);
            assert(front.drop_last() =~= codes@.subrange(0, k - 1));
            assert(front.last() == codes@[k - 1]);
            if k == 1 {
                assert(before =~= Seq::<char>::empty());
                assert(m@ =~= hex_words(front));
            } else {
                assert(m@ =~= hex_words(front));
            }
        }
    }
    assert(codes@.subrange(0, codes@.len() as int) =~= codes@);
    string_from(m.as_slice())
}

/// Time between two instants, in nanoseconds, never negative.
pub open spec fn elapsed(from: u64, to: u64) -> int {
    if to >= from {
        to - from
    } else {
        0
    }
}

pub open spec fn is_frame_event(code: u16) -> bool {
    code == EVENT_SONY_CAPTURED || code == EVENT_SONY_OBJECT_ADDED
}

/// Sony's events as far as this backend acts on them: the two that announce a frame, with two
/// announcements closer than half a second taken as one frame - `ObjectAdded` counts files, so
/// RAW+JPEG announces twice.
pub struct FrameFilter {
    last: Option<u64>,
}

impl FrameFilter {
    /// When the last frame was reported.
    pub closed spec fn last_frame(&self) -> Option<u64> {
        self.last
    }

    pub fn new() -> (r: Self)
        ensures
            r.last_frame() is None,
    {
        FrameFilter { last: None }
    }

    /// Map an event that arrived at `now` (nanoseconds on a monotonic clock).
    ///
    /// `DevicePropChanged` fires constantly but never names the property, so nothing but a
    /// frame is reported.
    pub fn accept(&mut self, event: &PtpEvent, now: u64) -> (r: Option<CameraEvent>)
        ensures
            !is_frame_event(event.code) ==> r is None && final(self).last_frame() == old(self).last_frame(),
            is_frame_event(event.code) && (old(self).last_frame() matches Some(at) && elapsed(
                at,
                now,
            ) < FRAME_DEBOUNCE_NANOS) ==> r is None && final(self).last_frame() == old(self).last_frame(),
            is_frame_event(event.code) && !(old(self).last_frame() matches Some(at) && elapsed(
                at,
                now,
            ) < FRAME_DEBOUNCE_NANOS) ==> r == Some(CameraEvent::FrameRecorded) && final(self).last_frame() == Some(now),
    {
        if event.code == EVENT_SONY_CAPTURED || event.code == EVENT_SONY_OBJECT_ADDED {
            let recent = match self.last {
                Some(at) => now.saturating_sub(at) < FRAME_DEBOUNCE_NANOS,
                None => false,
            };
            if recent {
                return None;
            }
            self.last = Some(now);
            Some(CameraEvent::FrameRecorded)
        } else {
            None
        }
    }
}

/// A fresh frame filter, the way a session starts.
pub fn mapper() -> (r: FrameFilter)
    ensures
        r.last_frame() is None,
{
    FrameFilter::new()
}

} // verus!
