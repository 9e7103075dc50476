//! Data types shared by every camera backend.
//!
//! Nothing in here knows about a wire protocol. The exposure values themselves carry a
//! brightness in fractional stops and live with the ramping engine; what is here is plain.

use vstd::prelude::*;

use crate::text::owned;

verus! {

/// Which protocol dialect a camera speaks over the network.
#[derive(Debug, Clone, Copy, PartialEq, Eq, Structural, Hash)]
pub enum Vendor {
    /// Canon CCAPI - REST/JSON over HTTP.
    Canon,
    /// Nikon PTP-IP (ISO 15740 over TCP).
    Nikon,
    /// Sony PTP-IP with the vendor's SDIO extension.
    Sony,
    /// In-process fake camera.
    Mock,
}

pub open spec fn spec_default_port(v: Vendor) -> u16 {
    match v {
        Vendor::Canon => 8080,
        Vendor::Nikon => 15740,
        Vendor::Sony => 15740,
        Vendor::Mock => 0,
    }
}

pub open spec fn spec_vendor_label(v: Vendor) -> Seq<char> {
    match v {
        Vendor::Canon => "Canon"@,
        Vendor::Nikon => "Nikon"@,
        Vendor::Sony => "Sony"@,
        Vendor::Mock => "Simulator"@,
    }
}

impl Vendor {
    pub const ALL: [Vendor; 4] = [Vendor::Canon, Vendor::Nikon, Vendor::Sony, Vendor::Mock];

    /// Port the vendor listens on out of the box. PTP-IP's registered port serves both Nikon
    /// and Sony.
    pub fn default_port(self) -> (r: u16)
        ensures
            r == spec_default_port(self),
    {
        match self {
            Vendor::Canon => 8080,
            Vendor::Nikon | Vendor::Sony => 15740,
            Vendor::Mock => 0,
        }
    }

    pub fn label(self) -> (r: &'static str)
        ensures
            r@ == spec_vendor_label(self),
    {
        match self {
            Vendor::Canon => "Canon",
            Vendor::Nikon => "Nikon",
            Vendor::Sony => "Sony",
            Vendor::Mock => "Simulator",
        }
    }
}

/// Where to reach a camera, and which dialect to use once we get there.
#[derive(Debug, Clone, PartialEq, Eq)]
pub struct CameraTarget {
    pub vendor: Vendor,
    pub host: String,
    pub port: u16,
}

impl CameraTarget {
    pub fn new(vendor: Vendor, host: &str, port: u16) -> (r: Self)
        ensures
            r.vendor == vendor,
            r.host@ == host@,
            r.port == port,
    {
        CameraTarget { vendor, host: owned(host), port }
    }
}

/// Identity a camera reports about itself once the session is up.
#[derive(Debug, Clone, PartialEq, Eq)]
pub struct CameraInfo {
    pub vendor: Vendor,
    pub manufacturer: String,
    pub model: String,
    pub serial: Option<String>,
    pub firmware: Option<String>,
    /// Protocol version actually negotiated, e.g. Canon's `ver130`.
    pub api_version: Option<String>,
    /// Whether this body accepts a remote shutter release.
    pub supports_release: bool,
    /// Whether the camera pushes events rather than having to be polled.
    pub pushes_events: bool,
}

/// What a vendor is, before anything is connected to.
#[derive(Debug, Clone, PartialEq, Eq)]
pub struct VendorProfile {
    pub vendor: Vendor,
    pub label: String,
    /// One line, shown under the vendor picker.
    pub summary: String,
    pub default_port: u16,
    /// Address the body takes when it hosts its own network, where it has a fixed one.
    pub access_point_host: Option<String>,
    /// Whether an address has to be supplied at all.
    pub needs_address: bool,
    /// Whether a backend exists.
    pub implemented: bool,
    /// Whether the vendor is hidden from ordinary users.
    pub developer_only: bool,
}

/// The three exposure dials a ramp can move.
#[derive(Debug, Clone, Copy, PartialEq, Eq, Structural, Hash)]
pub enum Dial {
    Shutter,
    Aperture,
    Iso,
}

pub open spec fn spec_dial_label(d: Dial) -> Seq<char> {
    match d {
        Dial::Shutter => "Shutter"@,
        Dial::Aperture => "Aperture"@,
        Dial::Iso => "ISO"@,
    }
}

impl Dial {
    pub const ALL: [Dial; 3] = [Dial::Shutter, Dial::Aperture, Dial::Iso];

    pub fn label(self) -> (r: &'static str)
        ensures
            r@ == spec_dial_label(self),
    {
        match self {
            Dial::Shutter => "Shutter",
            Dial::Aperture => "Aperture",
            Dial::Iso => "ISO",
        }
    }
}

/// Something the camera reported on its own initiative.
#[derive(Debug, Clone, Copy, PartialEq, Eq, Structural)]
pub enum CameraEvent {
    /// One exposure finished - the frame signal a ramp advances on.
    FrameRecorded,
    /// A dial moved on the body itself.
    DialChanged { dial: Dial },
}

/// Total of the counts in one histogram channel.
pub open spec fn total(s: Seq<u32>) -> int
    decreases s.len(),
{
    if s.len() == 0 {
        0
    } else {
        total(s.drop_last()) + s.last()
    }
}

proof fn lemma_total_update(s: Seq<u32>, i: int, v: u32)
    requires
        0 <= i < s.len(),
    ensures
        total(s.update(i, v)) == total(s) - s[i] + v,
    decreases s.len(),
{
    if i == s.len() - 1 {
        assert(s.update(i, v).drop_last() =~= s.drop_last());
    } else {
        lemma_total_update(s.drop_last(), i, v);
        assert(s.update(i, v).drop_last() =~= s.drop_last().update(i, v));
    }
}

proof fn lemma_total_bounds(s: Seq<u32>, i: int)
    requires
        0 <= i < s.len(),
    ensures
        s[i] <= total(s),
        total(s) >= 0,
    decreases s.len(),
{
    lemma_total_nonneg(s.drop_last());
    if i < s.len() - 1 {
        lemma_total_bounds(s.drop_last(), i);
    }
}

proof fn lemma_total_nonneg(s: Seq<u32>)
    ensures
        total(s) >= 0,
    decreases s.len(),
{
    if s.len() > 0 {
        lemma_total_nonneg(s.drop_last());
    }
}

proof fn lemma_total_zero(n: nat)
    ensures
        total(Seq::new(n, |i: int| 0u32)) == 0,
    decreases n,
{
    if n > 0 {
        lemma_total_zero((n - 1) as nat);
        assert(Seq::new(n, |i: int| 0u32).drop_last() =~= Seq::new((n - 1) as nat, |i: int| 0u32));
    }
}

/// Tone distribution of a preview frame: the three channels separately plus luma, 256 bins
/// each, and the number of pixels counted.
#[derive(Debug, Clone, PartialEq, Eq)]
pub struct Histogram {
    pub red: Vec<u32>,
    pub green: Vec<u32>,
    pub blue: Vec<u32>,
    pub luma: Vec<u32>,
    pub pixels: u32,
}

pub open spec fn channel_ok(c: Seq<u32>, pixels: u32) -> bool {
    c.len() == 256 && total(c) == pixels
}

impl Histogram {
    pub const BINS: usize = 256;

    /// Every channel has one bin per value and accounts for every pixel counted.
    pub open spec fn well_formed(&self) -> bool {
        &&& channel_ok(self.red@, self.pixels)
        &&& channel_ok(self.green@, self.pixels)
        &&& channel_ok(self.blue@, self.pixels)
        &&& channel_ok(self.luma@, self.pixels)
    }

    pub fn empty() -> (r: Self)
        ensures
            r.well_formed(),
            r.pixels == 0,
            r.red@ == Seq::new(256, |i: int| 0u32),
            r.green@ == Seq::new(256, |i: int| 0u32),
            r.blue@ == Seq::new(256, |i: int| 0u32),
            r.luma@ == Seq::new(256, |i: int| 0u32),
    {
        proof {
            lemma_total_zero(256);
        }
        Histogram {
            red: zeros(),
            green: zeros(),
            blue: zeros(),
            luma: zeros(),
            pixels: 0,
        }
    }

    /// Count one pixel with the given channel values and luma bin.
    ///
    /// The luma bin is the weighted, rounded brightness the caller measured; every channel
    /// gains exactly one count, so each keeps accounting for every pixel.
    pub fn add_pixel(&mut self, red: u8, green: u8, blue: u8, luma: u8)
        requires
            old(self).well_formed(),
            old(self).pixels < u32::MAX,
        ensures
            final(self).well_formed(),
            final(self).pixels == old(self).pixels + 1,
            final(self).red@ == old(self).red@.update(red as int, (old(self).red@[red as int] + 1) as u32),
            final(self).green@ == old(self).green@.update(green as int, (old(self).green@[green as int] + 1) as u32),
            final(self).blue@ == old(self).blue@.update(blue as int, (old(self).blue@[blue as int] + 1) as u32),
            final(self).luma@ == old(self).luma@.update(luma as int, (old(self).luma@[luma as int] + 1) as u32),
    {
        let pixels = self.pixels;
        bump(&mut self.red, red as usize, pixels);
        bump(&mut self.green, green as usize, pixels);
        bump(&mut self.blue, blue as usize, pixels);
        bump(&mut self.luma, luma as usize, pixels);
        self.pixels = pixels + 1;
    }

    /// Count one greyscale pixel: with no channels to separate, all four curves coincide.
    pub fn add_grey(&mut self, value: u8)
        requires
            old(self).well_formed(),
            old(self).pixels < u32::MAX,
        ensures
            final(self).well_formed(),
            final(self).pixels == old(self).pixels + 1,
            final(self).red@ == old(self).red@.update(value as int, (old(self).red@[value as int] + 1) as u32),
            final(self).green@ == old(self).green@.update(value as int, (old(self).green@[value as int] + 1) as u32),
            final(self).blue@ == old(self).blue@.update(value as int, (old(self).blue@[value as int] + 1) as u32),
            final(self).luma@ == old(self).luma@.update(value as int, (old(self).luma@[value as int] + 1) as u32),
            old(self).red@ == old(self).luma@ ==> final(self).red@ == final(self).luma@,
            old(self).green@ == old(self).luma@ ==> final(self).green@ == final(self).luma@,
            old(self).blue@ == old(self).luma@ ==> final(self).blue@ == final(self).luma@,
    {
        self.add_pixel(value, value, value, value);
    }
}

fn zeros() -> (r: Vec<u32>)
    ensures
        r@ == Seq::new(256, |i: int| 0u32),
{
    let mut v: Vec<u32> = Vec::new();
    let mut k: usize = 0;
    while k < 256
        invariant
            k <= 256,
            v@ == Seq::new(k as nat, |i: int| 0u32),
        decreases 256 - k,
    {
        v.push(0);
        k = k + 1;
        assert(v@ =~= Seq::new(k as nat, |i: int| 0u32));
    }
    v
}

fn bump(channel: &mut Vec<u32>, bin: usize, pixels: u32)
    requires
        channel_ok(old(channel)@, pixels),
        bin < 256,
        pixels < u32::MAX,
    ensures
        channel_ok(final(channel)@, (pixels + 1) as u32),
        final(channel)@ == old(channel)@.update(bin as int, (old(channel)@[bin as int] + 1) as u32),
{
    proof {
        lemma_total_bounds(channel@, bin as int);
    }
    let count = channel[bin];
    channel.set(bin, count + 1);
    proof {
        lemma_total_update(old(channel)@, bin as int, (count + 1) as u32);
    }
}

/// Remaining charge, best effort.
#[derive(Debug, Clone, PartialEq, Eq)]
pub struct BatteryStatus {
    pub percent: Option<u8>,
    pub label: String,
}

/// A preview frame's metadata, without its pixels: the image travels separately, as raw bytes,
/// while this is small and structured.
#[derive(Debug, Clone, PartialEq, Eq)]
pub struct PreviewInfo {
    pub filename: String,
    pub width: u32,
    pub height: u32,
    /// Size of the image the follow-up request returns, as 32 bits carry it.
    pub bytes: u32,
}

impl PreviewInfo {
    /// The metadata of a frame of `byte_len` bytes.
    pub fn of(filename: String, pixels: (u32, u32), byte_len: usize) -> (r: Self)
        ensures
            r.filename == filename,
            r.width == pixels.0,
            r.height == pixels.1,
            r.bytes == byte_len as u32,
    {
        PreviewInfo { filename, width: pixels.0, height: pixels.1, bytes: byte_len as u32 }
    }
}

} // verus!
