//! A camera that only exists in this process: its value tables and its state.
//!
//! The ramping engine needs a camera whose exact value lists are known, and no real body gives
//! that. Like a real camera, the simulator refuses values outside its current lists - otherwise
//! a ramp would look correct here and fail on hardware.

use vstd::prelude::*;

use super::error::{CameraError, CameraResult};
use super::model::{spec_dial_label, BatteryStatus, CameraInfo, Dial, Vendor, VendorProfile};
use crate::text::{chars_eq, chars_of, decimal, owned, push_decimal, push_str, string_from};

verus! {

/// What the connect screen shows for this vendor.
pub open spec fn is_profile(p: VendorProfile) -> bool {
    &&& p.vendor == Vendor::Mock
    &&& p.label@ == "Simulator"@
    &&& p.summary@ == "Fake camera running in-process"@
    &&& p.default_port == 0
    &&& p.access_point_host is None
    &&& !p.needs_address
    &&& p.implemented
    &&& p.developer_only
}

/// What the connect screen shows for the simulator, which is hidden from ordinary users.
pub fn profile() -> (r: VendorProfile)
    ensures
        is_profile(r),
{
    VendorProfile {
        vendor: Vendor::Mock,
        label: owned(Vendor::Mock.label()),
        summary: owned("Fake camera running in-process"),
        default_port: Vendor::Mock.default_port(),
        access_point_host: None,
        // Not on a network at all, so asking for an address would be theatre.
        needs_address: false,
        implemented: true,
        developer_only: true,
    }
}

/// Identity of the simulator; `version` is the application's own.
pub fn camera_info(version: &str) -> (r: CameraInfo)
    ensures
        r.vendor == Vendor::Mock,
        r.manufacturer@ == "Dusklapse"@,
        r.model@ == "Simulated Body"@,
        r.serial matches Some(s) && s@ == "MOCK-0001"@,
        r.firmware matches Some(f) && f@ == version@,
        r.api_version is None,
        r.supports_release,
        r.pushes_events,
{
    CameraInfo {
        vendor: Vendor::Mock,
        manufacturer: owned("Dusklapse"),
        model: owned("Simulated Body"),
        serial: Some(owned("MOCK-0001")),
        firmware: Some(owned(version)),
        api_version: None,
        supports_release: true,
        // Frames are announced the way a real body announces them.
        pushes_events: true,
    }
}

/// The values each dial offers: roughly a mirrorless body's shutter range in full stops, a
/// lens's apertures, and the ISO ladder.
pub open spec fn spec_selectable(dial: Dial) -> Seq<Seq<char>> {
    match dial {
        Dial::Shutter => seq![
            "1/8000"@, "1/4000"@, "1/2000"@, "1/1000"@, "1/500"@, "1/250"@, "1/125"@, "1/60"@,
            "1/30"@, "1/15"@, "1/8"@, "1/4"@, "1/2"@, "1"@, "2"@, "4"@, "8"@, "15"@, "30"@,
            "bulb"@,
        ],
        Dial::Aperture => seq![
            "f1.4"@, "f2.0"@, "f2.8"@, "f4.0"@, "f5.6"@, "f8.0"@, "f11"@, "f16"@, "f22"@,
        ],
        Dial::Iso => seq![
            "100"@, "200"@, "400"@, "800"@, "1600"@, "3200"@, "6400"@, "12800"@, "auto"@,
        ],
    }
}

/// The raw tokens `dial` offers.
pub fn selectable(dial: Dial) -> (r: Vec<&'static str>)
    ensures
        r@.map_values(|s: &'static str| s@) == spec_selectable(dial),
{
    let r = match dial {
        Dial::Shutter => vec![
            "1/8000",
            "1/4000",
            "1/2000",
            "1/1000",
            "1/500",
            "1/250",
            "1/125",
            "1/60",
            "1/30",
            "1/15",
            "1/8",
            "1/4",
            "1/2",
            "1",
            "2",
            "4",
            "8",
            "15",
            "30",
            "bulb",
        ],
        Dial::Aperture => vec!["f1.4", "f2.0", "f2.8", "f4.0", "f5.6", "f8.0", "f11", "f16", "f22"],
        Dial::Iso => vec!["100", "200", "400", "800", "1600", "3200", "6400", "12800", "auto"],
    };
    assert(r@.map_values(|s: &'static str| s@) =~= spec_selectable(dial));
    r
}

/// Whether `dial` offers `value`.
pub fn offers(dial: Dial, value: &str) -> (r: bool)
    ensures
        r == spec_selectable(dial).contains(value@),
{
    let list = selectable(dial);
    let v = chars_of(value);
    let ghost views = list@.map_values(|s: &'static str| s@);
    let mut i: usize = 0;
    while i < list.len()
        invariant
            i <= list@.len(),
            views == spec_selectable(dial),
            views == list@.map_values(|s: &'static str| s@),
            v@ == value@,
            forall|j: int| 0 <= j < i ==> views[j] != value@,
        decreases list@.len() - i,
    {
        assert(views[i as int] == list@[i as int]@);
        if chars_eq(chars_of(list[i]).as_slice(), v.as_slice()) {
            assert(views[i as int] == value@);
            return true;
        }
        i = i + 1;
    }
    false
}

/// The simulator's dials and how many frames it has taken.
pub struct MockState {
    shutter: String,
    aperture: String,
    iso: String,
    shots: u32,
}

pub open spec fn spec_battery_percent(shots: u32) -> u8 {
    if shots / 10 >= 100 {
        0
    } else {
        (100 - shots / 10) as u8
    }
}

impl MockState {
    /// What `dial` is set to.
    pub closed spec fn setting(&self, dial: Dial) -> Seq<char> {
        match dial {
            Dial::Shutter => self.shutter@,
            Dial::Aperture => self.aperture@,
            Dial::Iso => self.iso@,
        }
    }

    pub closed spec fn shots_taken(&self) -> u32 {
        self.shots
    }

    /// How many frames have been taken.
    pub fn shots(&self) -> (r: u32)
        ensures
            r == self.shots_taken(),
    {
        self.shots
    }

    /// 1/125 s at f/4 and ISO 400, no frames yet.
    pub fn new() -> (r: Self)
        ensures
            r.setting(Dial::Shutter) == "1/125"@,
            r.setting(Dial::Aperture) == "f4.0"@,
            r.setting(Dial::Iso) == "400"@,
            r.shots_taken() == 0,
    {
        MockState {
            shutter: owned("1/125"),
            aperture: owned("f4.0"),
            iso: owned("400"),
            shots: 0,
        }
    }

    /// The raw token `dial` is set to.
    pub fn current(&self, dial: Dial) -> (r: &str)
        ensures
            r@ == self.setting(dial),
    {
        match dial {
            Dial::Shutter => self.shutter.as_str(),
            Dial::Aperture => self.aperture.as_str(),
            Dial::Iso => self.iso.as_str(),
        }
    }

    /// Move one dial; a value the dial does not offer is refused and changes nothing.
    pub fn set(&mut self, dial: Dial, value: &str) -> (r: CameraResult<()>)
        ensures
            spec_selectable(dial).contains(value@) ==> r is Ok && final(self).setting(dial)
                == value@ && forall|other: Dial|
                other != dial ==> #[trigger] final(self).setting(other) == old(self).setting(
                    other,
                ),
            !spec_selectable(dial).contains(value@) ==> (r matches Err(
                CameraError::ValueNotSelectable { dial: d, value: v },
            ) && d@ == spec_dial_label(dial) && v@ == value@ && forall|other: Dial|
                #[trigger] final(self).setting(other) == old(self).setting(other)),
            final(self).shots_taken() == old(self).shots_taken(),
    {
        if !offers(dial, value) {
            return Err(CameraError::ValueNotSelectable { dial: dial.label(), value: owned(value) });
        }
        match dial {
            Dial::Shutter => self.shutter = owned(value),
            Dial::Aperture => self.aperture = owned(value),
            Dial::Iso => self.iso = owned(value),
        }
        Ok(())
    }

    /// Count one frame.
    pub fn record_shot(&mut self) -> (n: u32)
        requires
            old(self).shots_taken() < u32::MAX,
        ensures
            n == old(self).shots_taken() + 1,
            final(self).shots_taken() == n,
            forall|d: Dial| #[trigger] final(self).setting(d) == old(self).setting(d),
    {
        self.shots = self.shots + 1;
        self.shots
    }

    /// Charge drains one percent per ten frames, so running out mid-sequence is reachable in
    /// a test rather than only in the field.
    pub fn battery(&self) -> (r: BatteryStatus)
        ensures
            r.percent == Some(spec_battery_percent(self.shots_taken())),
            r.label@ == decimal(spec_battery_percent(self.shots_taken()) as nat) + "%"@,
    {
        let spent = self.shots / 10;
        let percent: u8 = if spent >= 100 {
            0
        } else {
            (100 - spent) as u8
        };
        let mut label: Vec<char> = Vec::new();
        push_decimal(&mut label, percent as u64);
        push_str(&mut label, "%");
        BatteryStatus { percent: Some(percent), label: string_from(label.as_slice()) }
    }
}

} // verus!
