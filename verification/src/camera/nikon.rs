//! Nikon over PTP-IP: which properties are the dials, which events matter, and what a write
//! has to satisfy before it is sent.
//!
//! | Property | Type | Encoding |
//! |---|---|---|
//! | `FNumber` 0x5007 | UINT16 | hundredths: `280` is f/2.8 |
//! | `ExposureTime` 0x500D | UINT32 | 100 µs units: `10000` is 1 s |
//! | `ExposureIndex` 0x500F | UINT16 | the ISO number itself |
//!
//! The body reached over Wi-Fi offers no capture operation; frame timing comes from an
//! intervalometer and this backend ramps exposure between frames.

use vstd::prelude::*;

use super::error::{CameraError, CameraResult};
use super::model::{
    spec_dial_label, BatteryStatus, CameraEvent, CameraInfo, Dial, Vendor, VendorProfile,
};
use super::ptpip::{
    value_u32, DeviceInfo, Form, FormView, PropDesc, PtpEvent, PtpEventView,
    EVENT_CAPTURE_COMPLETE, EVENT_DEVICE_PROP_CHANGED,
};
use crate::text::{
    chars_of, decimal, leading_run, owned, parse_bounded, parse_unsigned, push_decimal, push_str,
    string_from, strip_leading, trim, trimmed,
};

verus! {

/// Shown on the camera during the handshake.
pub const CLIENT_NAME: &'static str = "Dusklapse";

pub const PROP_BATTERY_LEVEL: u16 = 0x5001;
pub const PROP_F_NUMBER: u16 = 0x5007;
pub const PROP_EXPOSURE_TIME: u16 = 0x500D;
pub const PROP_EXPOSURE_INDEX: u16 = 0x500F;

/// Sentinels for the two shutter settings with no fixed duration.
pub const EXPOSURE_TIME_BULB: u32 = 0xFFFF_FFFF;
pub const EXPOSURE_TIME_TIME: u32 = 0xFFFF_FFFD;

/// What the connect screen shows for this vendor.
pub open spec fn is_profile(p: VendorProfile) -> bool {
    &&& p.vendor == Vendor::Nikon
    &&& p.label@ == "Nikon"@
    &&& p.summary@ == "PTP-IP - use 'Connect to smart device' and join the camera's network"@
    &&& p.default_port == 15740
    &&& p.access_point_host matches Some(h) && h@ == "192.168.1.1"@
    &&& p.needs_address
    &&& p.implemented
    &&& !p.developer_only
}

/// What the connect screen shows for Nikon: the body hosts its own network in "connect to
/// smart device" mode and answers at a fixed address there.
pub fn profile() -> (r: VendorProfile)
    ensures
        is_profile(r),
{
    VendorProfile {
        vendor: Vendor::Nikon,
        label: owned(Vendor::Nikon.label()),
        summary: owned("PTP-IP - use 'Connect to smart device' and join the camera's network"),
        default_port: Vendor::Nikon.default_port(),
        access_point_host: Some(owned("192.168.1.1")),
        needs_address: true,
        implemented: true,
        developer_only: false,
    }
}

pub open spec fn spec_dial_property(dial: Dial) -> u16 {
    match dial {
        Dial::Shutter => PROP_EXPOSURE_TIME,
        Dial::Aperture => PROP_F_NUMBER,
        Dial::Iso => PROP_EXPOSURE_INDEX,
    }
}

pub open spec fn spec_property_dial(property: u16) -> Option<Dial> {
    if property == PROP_EXPOSURE_TIME {
        Some(Dial::Shutter)
    } else if property == PROP_F_NUMBER {
        Some(Dial::Aperture)
    } else if property == PROP_EXPOSURE_INDEX {
        Some(Dial::Iso)
    } else {
        None
    }
}

/// The property behind each dial.
pub fn dial_property(dial: Dial) -> (r: u16)
    ensures
        r == spec_dial_property(dial),
{
    match dial {
        Dial::Shutter => PROP_EXPOSURE_TIME,
        Dial::Aperture => PROP_F_NUMBER,
        Dial::Iso => PROP_EXPOSURE_INDEX,
    }
}

/// The dial a property is, if it is one.
pub fn property_dial(property: u16) -> (r: Option<Dial>)
    ensures
        r == spec_property_dial(property),
{
    if property == PROP_EXPOSURE_TIME {
        Some(Dial::Shutter)
    } else if property == PROP_F_NUMBER {
        Some(Dial::Aperture)
    } else if property == PROP_EXPOSURE_INDEX {
        Some(Dial::Iso)
    } else {
        None
    }
}

/// Each dial's property names that dial and no other: a property-changed event for a dial's
/// property always comes back as that dial.
pub proof fn dial_property_round_trip(dial: Dial, property: u16)
    ensures
        spec_property_dial(spec_dial_property(dial)) == Some(dial),
        spec_property_dial(property) == Some(dial) ==> spec_dial_property(dial) == property,
{
}

pub open spec fn spec_map_event(event: PtpEventView) -> Option<CameraEvent> {
    if event.code == EVENT_CAPTURE_COMPLETE {
        Some(CameraEvent::FrameRecorded)
    } else if event.code == EVENT_DEVICE_PROP_CHANGED && event.params.len() > 0 {
        match spec_property_dial(event.params[0] as u16) {
            Some(dial) => Some(CameraEvent::DialChanged { dial }),
            None => None,
        }
    } else {
        None
    }
}

/// Decide which raw PTP events are worth waking the app for.
///
/// A body reports every focus-point nudge as a property change, so only changes to the three
/// dials get through. Frames are counted by `CaptureComplete` rather than `ObjectAdded`, which
/// fires once per written file - twice per exposure for RAW+JPEG.
pub fn map_event(event: &PtpEvent) -> (r: Option<CameraEvent>)
    ensures
        r == spec_map_event(event@),
{
    if event.code == EVENT_CAPTURE_COMPLETE {
        Some(CameraEvent::FrameRecorded)
    } else if event.code == EVENT_DEVICE_PROP_CHANGED && event.params.len() > 0 {
        let property = event.params[0] as u16;
        match property_dial(property) {
            Some(dial) => Some(CameraEvent::DialChanged { dial }),
            None => None,
        }
    } else {
        None
    }
}

pub open spec fn spec_sentinel(dial: Dial, raw: u32) -> Option<Seq<char>> {
    match dial {
        Dial::Shutter => if raw == EXPOSURE_TIME_BULB {
            Some("BULB"@)
        } else if raw == EXPOSURE_TIME_TIME {
            Some("TIME"@)
        } else if raw == 0 {
            Some("-"@)
        } else {
            None
        },
        Dial::Aperture => if raw == 0 {
            Some("-"@)
        } else {
            None
        },
        Dial::Iso => if raw == 0 {
            Some("AUTO"@)
        } else {
            None
        },
    }
}

/// The raw values with no fixed brightness, and their labels: on the shutter, bulb
/// (0xFFFF_FFFF), time (0xFFFF_FFFD) and an unreported zero; on the aperture, zero; on ISO,
/// zero, which is auto. Every other value is a real setting and gets no label.
pub proof fn sentinels_are_bulb_time_and_unset(dial: Dial, raw: u32)
    ensures
        dial == Dial::Shutter && raw == 0xFFFF_FFFFu32 ==> spec_sentinel(dial, raw) == Some(
            "BULB"@,
        ),
        dial == Dial::Shutter && raw == 0xFFFF_FFFDu32 ==> spec_sentinel(dial, raw) == Some(
            "TIME"@,
        ),
        (dial == Dial::Shutter || dial == Dial::Aperture) && raw == 0 ==> spec_sentinel(dial, raw)
            == Some("-"@),
        dial == Dial::Iso && raw == 0 ==> spec_sentinel(dial, raw) == Some("AUTO"@),
        raw != 0 && !(dial == Dial::Shutter && (raw == 0xFFFF_FFFFu32 || raw == 0xFFFF_FFFDu32))
            ==> spec_sentinel(dial, raw) is None,
{
}

/// The label of a raw value that has no fixed brightness - bulb, time, auto, or nothing at
/// all - or `None` for a value that is a real shutter speed, f-number or ISO. A value with a
/// label here must never be picked by a ramp.
pub fn sentinel(dial: Dial, raw: u32) -> (r: Option<&'static str>)
    ensures
        dial == Dial::Shutter && raw == 0xFFFF_FFFFu32 ==> (r matches Some(s) && s@ == "BULB"@),
        dial == Dial::Shutter && raw == 0xFFFF_FFFDu32 ==> (r matches Some(s) && s@ == "TIME"@),
        match r {
            Some(s) => spec_sentinel(dial, raw) == Some(s@),
            None => spec_sentinel(dial, raw) is None,
        },
{
    match dial {
        Dial::Shutter => if raw == EXPOSURE_TIME_BULB {
            Some("BULB")
        } else if raw == EXPOSURE_TIME_TIME {
            Some("TIME")
        } else if raw == 0 {
            Some("-")
        } else {
            None
        },
        Dial::Aperture => if raw == 0 {
            Some("-")
        } else {
            None
        },
        Dial::Iso => if raw == 0 {
            Some("AUTO")
        } else {
            None
        },
    }
}

pub open spec fn spec_non_empty(text: Seq<char>) -> Option<Seq<char>> {
    if trimmed(text).len() == 0 {
        None
    } else {
        Some(trimmed(text))
    }
}

pub open spec fn opt_view(o: Option<String>) -> Option<Seq<char>> {
    match o {
        Some(s) => Some(s@),
        None => None,
    }
}

/// `text` without surrounding whitespace, or nothing when that leaves nothing.
pub fn non_empty(text: &str) -> (r: Option<String>)
    ensures
        opt_view(r) == spec_non_empty(text@),
{
    let t = trim(chars_of(text).as_slice());
    if t.len() == 0 {
        None
    } else {
        Some(string_from(t.as_slice()))
    }
}

fn non_empty_chars(text: &[char]) -> (r: Option<String>)
    ensures
        opt_view(r) == spec_non_empty(text@),
{
    let t = trim(text);
    if t.len() == 0 {
        None
    } else {
        Some(string_from(t.as_slice()))
    }
}

/// `value`, or `fallback` where there is none.
pub fn or_default(value: Option<String>, fallback: &str) -> (r: String)
    ensures
        r@ == (match opt_view(value) {
            Some(v) => v,
            None => fallback@,
        }),
{
    match value {
        Some(v) => v,
        None => owned(fallback),
    }
}

/// Identity of a Nikon body from its DeviceInfo. Nikon pads the serial to 32 characters with
/// leading zeros, which are dropped.
pub fn camera_info(device: &DeviceInfo) -> (r: CameraInfo)
    ensures
        r.vendor == Vendor::Nikon,
        r.manufacturer@ == (match spec_non_empty(device.manufacturer@) {
            Some(m) => m,
            None => "Nikon"@,
        }),
        r.model@ == (match spec_non_empty(device.model@) {
            Some(m) => m,
            None => "Unknown body"@,
        }),
        opt_view(r.serial) == spec_non_empty(strip_leading(device.serial@, '0')),
        opt_view(r.firmware) == spec_non_empty(device.device_version@),
        r.api_version is None,
        !r.supports_release,
        r.pushes_events,
{
    let serial = chars_of(device.serial.as_str());
    let zeros = leading_run(serial.as_slice(), '0');
    let unpadded = crate::text::copy_range(serial.as_slice(), zeros, serial.len());
    CameraInfo {
        vendor: Vendor::Nikon,
        manufacturer: or_default(non_empty(device.manufacturer.as_str()), "Nikon"),
        model: or_default(non_empty(device.model.as_str()), "Unknown body"),
        serial: non_empty_chars(unpadded.as_slice()),
        firmware: non_empty(device.device_version.as_str()),
        api_version: None,
        // No capture operation is reachable over Wi-Fi on this body.
        supports_release: false,
        // PTP-IP's event channel names the property that changed.
        pushes_events: true,
    }
}

/// A dial value as a write carries it: the camera's own number in decimal, as it reported it.
pub fn parse_value(dial: Dial, value: &str) -> (r: CameraResult<u32>)
    ensures
        parse_unsigned(value@, u32::MAX as nat) matches Some(n) ==> r == Ok::<u32, CameraError>(
            n as u32,
        ),
        parse_unsigned(value@, u32::MAX as nat) is None ==> (r matches Err(
            CameraError::ValueNotSelectable { dial: d, value: v },
        ) && d@ == spec_dial_label(dial) && v@ == value@),
{
    match parse_bounded(chars_of(value).as_slice(), u32::MAX as u64) {
        Some(n) => Ok(n as u32),
        None => Err(CameraError::ValueNotSelectable { dial: dial.label(), value: owned(value) }),
    }
}

pub open spec fn read_only_message(dial: Dial) -> Seq<char> {
    spec_dial_label(dial) + " - the camera reports it as read-only right now"@
}

pub open spec fn offers(values: Seq<super::ptpip::PtpValue>, raw: u32) -> bool {
    exists|i: int| 0 <= i < values.len() && value_u32(values[i]) == raw
}

/// Whether the descriptor the camera just gave lets `raw` be written to `dial`: the property
/// has to be writable right now, and where it enumerates its values, `raw` has to be one.
pub fn check_write(dial: Dial, value: &str, raw: u32, desc: &PropDesc) -> (r: CameraResult<()>)
    ensures
        !desc.writable ==> (r matches Err(CameraError::Unavailable(m)) && m@ == read_only_message(
            dial,
        )),
        desc.writable && (desc.form@ matches FormView::Enumeration(vs) && !offers(vs, raw)) ==> (
        r matches Err(CameraError::ValueNotSelectable { dial: d, value: v }) && d@
            == spec_dial_label(dial) && v@ == value@),
        desc.writable && !(desc.form@ matches FormView::Enumeration(vs) && !offers(vs, raw))
            ==> r is Ok,
{
    if !desc.writable {
        let mut m: Vec<char> = Vec::new();
        push_str(&mut m, dial.label());
        push_str(&mut m, " - the camera reports it as read-only right now");
        return Err(CameraError::Unavailable(string_from(m.as_slice())));
    }
    match &desc.form {
        Form::Enumeration(values) => {
            let mut i: usize = 0;
            while i < values.len()
                invariant
                    i <= values@.len(),
                    desc.writable,
                    desc.form@ == FormView::Enumeration(values@),
                    forall|j: int| 0 <= j < i ==> value_u32(values@[j]) != raw,
                decreases values@.len() - i,
            {
                if values[i].as_u32() == raw {
                    assert(offers(values@, raw));
                    return Ok(());
                }
                i = i + 1;
            }
            Err(CameraError::ValueNotSelectable { dial: dial.label(), value: owned(value) })
        },
        _ => Ok(()),
    }
}

pub open spec fn spec_enumerated(form: FormView) -> Seq<u32> {
    match form {
        FormView::Enumeration(vs) => vs.map_values(|v: super::ptpip::PtpValue| value_u32(v)),
        _ => Seq::empty(),
    }
}

/// The raw values a dial may be set to. A property constrained by a range yields nothing:
/// inventing step positions would produce writes the camera rejects.
pub fn enumerated(desc: &PropDesc) -> (r: Vec<u32>)
    ensures
        r@ == spec_enumerated(desc.form@),
{
    let mut r: Vec<u32> = Vec::new();
    match &desc.form {
        Form::Enumeration(values) => {
            let mut i: usize = 0;
            while i < values.len()
                invariant
                    i <= values@.len(),
                    r@ == values@.subrange(0, i as int).map_values(
                        |v: super::ptpip::PtpValue| value_u32(v),
                    ),
                decreases values@.len() - i,
            {
                r.push(values[i].as_u32());
                i = i + 1;
                assert(r@ =~= values@.subrange(0, i as int).map_values(
                    |v: super::ptpip::PtpValue| value_u32(v),
                ));
            }
            assert(values@.subrange(0, values@.len() as int) =~= values@);
        },
        _ => {},
    }
    r
}

pub open spec fn spec_battery_percent(v: u32) -> u8 {
    if v < 100 {
        v as u8
    } else {
        100
    }
}

/// The charge a battery-level descriptor reports, capped at 100. A body that does not report
/// charge at all is not a broken session.
pub fn battery_status(reply: CameraResult<PropDesc>) -> (r: CameraResult<Option<BatteryStatus>>)
    ensures
        reply is Ok ==> (r matches Ok(Some(b)) && b.percent == Some(
            spec_battery_percent(value_u32(reply->Ok_0.current)),
        ) && b.label@ == decimal(spec_battery_percent(value_u32(reply->Ok_0.current)) as nat)
            + "%"@),
        reply matches Err(CameraError::Unavailable(_)) ==> r == Ok::<
            Option<BatteryStatus>,
            CameraError,
        >(None),
        reply is Err && !(reply matches Err(CameraError::Unavailable(_))) ==> r == Err::<
            Option<BatteryStatus>,
            CameraError,
        >(reply->Err_0),
{
    match reply {
        Ok(desc) => {
            let v = desc.current.as_u32();
            let percent: u8 = if v < 100 {
                v as u8
            } else {
                100
            };
            let mut label: Vec<char> = Vec::new();
            push_decimal(&mut label, percent as u64);
            push_str(&mut label, "%");
            Ok(Some(BatteryStatus { percent: Some(percent), label: string_from(label.as_slice()) }))
        },
        Err(CameraError::Unavailable(m)) => Ok(None),
        Err(err) => Err(err),
    }
}

} // verus!
