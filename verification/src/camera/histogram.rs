//! What a preview frame is measured for: the size its JPEG header declares, and the tone
//! distribution of its decoded pixels.
//!
//! The histogram counts gamma-encoded values, as a camera's own histogram does. The luma bin of
//! a colour pixel is a weighted brightness measured by the caller; everything else is counting.

use vstd::prelude::*;

use super::model::{channel_ok, total, Histogram};

verus! {

/// The width and height a JPEG's header declares, or `None` for anything that is not a
/// readable JPEG. Depends on the bytes alone.
pub uninterp spec fn jpeg_size(bytes: Seq<u8>) -> Option<(u16, u16)>;

/// Reads a JPEG's frame header without decoding the image.
///
/// Trusted: builds a `jpeg_decoder::Decoder` over the bytes, calls its `read_info`, and on
/// success its `info`, handing back the `width` and `height` of the `ImageInfo`; a failed
/// `read_info` or a missing `info` is `None`. The contract only names that result as
/// `jpeg_size` of the bytes - the decoder reads nothing but the bytes it is given - and says
/// nothing of which inputs parse.
#[verifier::external_body]
fn read_jpeg_size(bytes: &[u8]) -> (r: Option<(u16, u16)>)
    ensures
        r == jpeg_size(bytes@),
{
    let mut decoder = jpeg_decoder::Decoder::new(bytes);
    match decoder.read_info() {
        Ok(()) => {},
        Err(_) => return None,
    }
    match decoder.info() {
        Some(info) => Some((info.width, info.height)),
        None => None,
    }
}

pub open spec fn spec_size_in_pixels(header: Option<(u16, u16)>) -> Option<(u32, u32)> {
    match header {
        Some((w, h)) => Some((w as u32, h as u32)),
        None => None,
    }
}

/// The pixel size a header declares, widened for the preview's metadata.
pub fn size_in_pixels(header: Option<(u16, u16)>) -> (r: Option<(u32, u32)>)
    ensures
        r == spec_size_in_pixels(header),
{
    match header {
        Some((w, h)) => Some((w as u32, h as u32)),
        None => None,
    }
}

/// The pixel dimensions in a JPEG's header, for transports that do not carry them. `None` for
/// anything that is not a readable JPEG: a missing size is worth less than a wrong one.
pub fn dimensions(bytes: &[u8]) -> (r: Option<(u32, u32)>)
    ensures
        r == spec_size_in_pixels(jpeg_size(bytes@)),
{
    size_in_pixels(read_jpeg_size(bytes))
}

/// How many of `values` equal `v`.
pub open spec fn count(values: Seq<u8>, v: int) -> nat
    decreases values.len(),
{
    if values.len() == 0 {
        0
    } else {
        count(values.drop_last(), v) + (if values.last() == v {
            1nat
        } else {
            0nat
        })
    }
}

/// Channel `offset` of packed three-byte pixels: every third byte from `offset`, for each whole
/// pixel.
pub open spec fn channel(pixels: Seq<u8>, offset: int) -> Seq<u8> {
    Seq::new(pixels.len() / 3, |i: int| pixels[3 * i + offset])
}

/// A channel whose bins count exactly the given values.
pub open spec fn counts(bins: Seq<u32>, values: Seq<u8>) -> bool {
    bins.len() == 256 && forall|v: int| 0 <= v < 256 ==> #[trigger] bins[v] == count(values, v)
}

proof fn lemma_counts_push(bins: Seq<u32>, values: Seq<u8>, x: u8)
    requires
        counts(bins, values),
        bins[x as int] < u32::MAX,
    ensures
        counts(bins.update(x as int, (bins[x as int] + 1) as u32), values.push(x)),
{
    assert(values.push(x).drop_last() =~= values);
}

proof fn lemma_count_bounded(values: Seq<u8>, v: int)
    ensures
        count(values, v) <= values.len(),
    decreases values.len(),
{
    if values.len() > 0 {
        lemma_count_bounded(values.drop_last(), v);
    }
}

proof fn lemma_counts_empty()
    ensures
        counts(Seq::new(256, |i: int| 0u32), Seq::<u8>::empty()),
{
}

/// Count a greyscale frame. With no channels to separate, all four curves coincide - the
/// honest representation rather than three fabricated ones.
pub fn grey_histogram(pixels: &[u8]) -> (h: Histogram)
    requires
        pixels@.len() < u32::MAX,
    ensures
        h.well_formed(),
        h.pixels == pixels@.len(),
        counts(h.luma@, pixels@),
        h.red@ == h.luma@,
        h.green@ == h.luma@,
        h.blue@ == h.luma@,
{
    let mut h = Histogram::empty();
    proof {
        lemma_counts_empty();
    }
    let mut k: usize = 0;
    while k < pixels.len()
        invariant
            k <= pixels@.len(),
            pixels@.len() < u32::MAX,
            h.well_formed(),
            h.pixels == k,
            counts(h.luma@, pixels@.subrange(0, k as int)),
            h.red@ == h.luma@,
            h.green@ == h.luma@,
            h.blue@ == h.luma@,
        decreases pixels@.len() - k,
    {
        let v = pixels[k];
        proof {
            lemma_count_bounded(pixels@.subrange(0, k as int), v as int);
            assert(pixels@.subrange(0, k + 1) =~= pixels@.subrange(0, k as int).push(v));
            lemma_counts_push(h.luma@, pixels@.subrange(0, k as int), v);
        }
        h.add_grey(v);
        k = k + 1;
    }
    assert(pixels@.subrange(0, k as int) =~= pixels@);
    h
}

/// Count a colour frame of packed red, green and blue bytes, with the luma bin of each pixel
/// as the caller weighed it. Trailing bytes that do not make a whole pixel are not counted.
pub fn rgb_histogram(pixels: &[u8], luma: &[u8]) -> (h: Histogram)
    requires
        luma@.len() == pixels@.len() / 3,
        pixels@.len() / 3 < u32::MAX,
    ensures
        h.well_formed(),
        h.pixels == pixels@.len() / 3,
        counts(h.red@, channel(pixels@, 0)),
        counts(h.green@, channel(pixels@, 1)),
        counts(h.blue@, channel(pixels@, 2)),
        counts(h.luma@, luma@),
{
    let len = pixels.len();
    let n = len / 3;
    let mut h = Histogram::empty();
    proof {
        lemma_counts_empty();
        assert(channel(pixels@, 0).subrange(0, 0) =~= Seq::<u8>::empty());
        assert(channel(pixels@, 1).subrange(0, 0) =~= Seq::<u8>::empty());
        assert(channel(pixels@, 2).subrange(0, 0) =~= Seq::<u8>::empty());
        assert(luma@.subrange(0, 0) =~= Seq::<u8>::empty());
    }
    let mut k: usize = 0;
    while k < n
        invariant
            len == pixels@.len(),
            n == pixels@.len() / 3,
            luma@.len() == n,
            n < u32::MAX,
            k <= n,
            h.well_formed(),
            h.pixels == k,
            counts(h.red@, channel(pixels@, 0).subrange(0, k as int)),
            counts(h.green@, channel(pixels@, 1).subrange(0, k as int)),
            counts(h.blue@, channel(pixels@, 2).subrange(0, k as int)),
            counts(h.luma@, luma@.subrange(0, k as int)),
        decreases n - k,
    {
        assert(3 * k + 2 < pixels@.len()) by (nonlinear_arith)
            requires
                k < n,
                n == pixels@.len() / 3,
        ;
        let r = pixels[3 * k];
        let g = pixels[3 * k + 1];
        let b = pixels[3 * k + 2];
        let l = luma[k];
        proof {
            let red = channel(pixels@, 0);
            let green = channel(pixels@, 1);
            let blue = channel(pixels@, 2);
            lemma_count_bounded(red.subrange(0, k as int), r as int);
            lemma_count_bounded(green.subrange(0, k as int), g as int);
            lemma_count_bounded(blue.subrange(0, k as int), b as int);
            lemma_count_bounded(luma@.subrange(0, k as int), l as int);
            assert(red.subrange(0, k + 1) =~= red.subrange(0, k as int).push(r));
            assert(green.subrange(0, k + 1) =~= green.subrange(0, k as int).push(g));
            assert(blue.subrange(0, k + 1) =~= blue.subrange(0, k as int).push(b));
            assert(luma@.subrange(0, k + 1) =~= luma@.subrange(0, k as int).push(l));
            lemma_counts_push(h.red@, red.subrange(0, k as int), r);
            lemma_counts_push(h.green@, green.subrange(0, k as int), g);
            lemma_counts_push(h.blue@, blue.subrange(0, k as int), b);
            lemma_counts_push(h.luma@, luma@.subrange(0, k as int), l);
        }
        h.add_pixel(r, g, b, l);
        k = k + 1;
    }
    proof {
        assert(channel(pixels@, 0).subrange(0, n as int) =~= channel(pixels@, 0));
        assert(channel(pixels@, 1).subrange(0, n as int) =~= channel(pixels@, 1));
        assert(channel(pixels@, 2).subrange(0, n as int) =~= channel(pixels@, 2));
        assert(luma@.subrange(0, n as int) =~= luma@);
    }
    h
}

} // verus!
