//! Views of a buffer as single-channel frames of bytes: one per colour
//! channel, and for a binarized buffer one that is lit wherever any colour
//! is.

use vstd::prelude::*;

use crate::binarize::{binarized, is_binary, lemma_lower_cutoff_grows_foreground};
use crate::buffer::{
    native_maximum, native_off, native_on, sample_fits, BufferView, FrameView, GrayFrame, PixelBuffer, SampleDepth,
};
use crate::error::Error;
use crate::single::{byte_cut, byte_rounded, cut_to_byte, lemma_ends_of_unit_range_as_bytes, round_to_byte};

verus! {

/// The byte of a lit pixel in a frame.
pub const LIT: u8 = 255;

/// The byte of an unlit pixel in a frame.
pub const UNLIT: u8 = 0;

/// Where the samples of the colour `colour` (0 red, 1 green, 2 blue) stand
/// within a pixel of `channels` samples. With one or two channels every
/// colour is the grey sample; a last channel beyond grey or blue is alpha and
/// belongs to no colour.
pub open spec fn colour_offset(channels: nat, colour: nat) -> nat {
    if channels >= 3 {
        colour
    } else {
        0
    }
}

/// A sample of a buffer of `channels` channels as a byte.
///
/// A sample of eight bits is its own byte. A sample of sixteen bits is
/// brought from the range of 65535 to the range of 255 and rounded to the
/// nearest. A sample of the unit range is multiplied by 255: in a buffer of
/// three channels the product is cut towards zero, in any other it is
/// rounded to the nearest after the sample was brought into the range, a NaN
/// counting as one.
pub open spec fn sample_byte(depth: SampleDepth, channels: nat, sample: u32) -> u8 {
    match depth {
        SampleDepth::Eight => sample as u8,
        SampleDepth::Sixteen => ((sample + 128) / 257) as u8,
        SampleDepth::Unit => if channels == 3 {
            byte_cut(sample)
        } else {
            byte_rounded(sample)
        },
    }
}

/// Computes [`sample_byte`].
pub fn sample_to_byte(depth: SampleDepth, channels: u8, sample: u32) -> (byte: u8)
    requires
        sample_fits(depth, sample),
    ensures
        byte == sample_byte(depth, channels as nat, sample),
{
    match depth {
        SampleDepth::Eight => sample as u8,
        SampleDepth::Sixteen => ((sample + 128) / 257) as u8,
        SampleDepth::Unit => if channels == 3 {
            cut_to_byte(sample)
        } else {
            round_to_byte(sample)
        },
    }
}

/// The top of the native range is the byte 255 and its bottom the byte
/// zero, at every depth.
pub proof fn lemma_ends_of_range_as_bytes(depth: SampleDepth, channels: nat)
    ensures
        sample_byte(depth, channels, native_on(depth)) == LIT,
        sample_byte(depth, channels, native_off(depth)) == UNLIT,
{
    lemma_ends_of_unit_range_as_bytes();
}

/// The byte that the colour `colour` of pixel `pixel` of a buffer has in
/// its frame.
pub open spec fn plane_byte(view: BufferView, colour: nat, pixel: int) -> u8 {
    sample_byte(view.depth, view.channels, view.at(pixel, colour_offset(view.channels, colour) as int))
}

/// The frame of the colour `colour` of a buffer.
pub open spec fn plane(view: BufferView, colour: nat) -> FrameView {
    FrameView {
        width: view.width,
        height: view.height,
        data: Seq::new(view.pixels(), |pixel: int| plane_byte(view, colour, pixel)),
    }
}

/// The byte that pixel `pixel` of a binarized buffer has in the frame of
/// its foreground: lit where red, green or blue is.
pub open spec fn foreground_byte(view: BufferView, pixel: int) -> u8 {
    if plane_byte(view, 0, pixel) == LIT || plane_byte(view, 1, pixel) == LIT || plane_byte(view, 2, pixel)
        == LIT {
        LIT
    } else {
        UNLIT
    }
}

/// The frame of the foreground of a binarized buffer.
pub open spec fn foreground(view: BufferView) -> FrameView {
    FrameView {
        width: view.width,
        height: view.height,
        data: Seq::new(view.pixels(), |pixel: int| foreground_byte(view, pixel)),
    }
}

/// Whether every sample of `image` is the top or the bottom of the native
/// range.
pub fn is_binarized(image: &PixelBuffer) -> (binary: bool)
    ensures
        binary == is_binary(image@),
{
    let on = native_maximum(image.depth());
    let samples = image.samples();
    let mut i: usize = 0;
    while i < samples.len()
        invariant
            i <= samples.len(),
            samples@ == image@.samples,
            on == native_on(image@.depth),
            forall|j: int|
                0 <= j < i ==> #[trigger] samples[j] == native_on(image@.depth) || samples[j] == native_off(
                    image@.depth,
                ),
        decreases samples.len() - i,
    {
        if samples[i] != on && samples[i] != 0 {
            return false;
        }
        i += 1;
    }
    true
}

/// The bytes of one colour of a buffer, pixel by pixel.
fn plane_bytes(image: &PixelBuffer, colour: u8) -> (data: Vec<u8>)
    requires
        colour < 3,
    ensures
        data@ == plane(image@, colour as nat).data,
{
    image.validity();
    let depth = image.depth();
    let count = image.channels();
    let channels = count as usize;
    let offset: usize = if channels >= 3 {
        colour as usize
    } else {
        0
    };
    let pixels = image.pixels() as usize;
    let samples = image.samples();
    let mut data: Vec<u8> = Vec::with_capacity(pixels);
    let mut pixel: usize = 0;
    let mut base: usize = 0;
    while pixel < pixels
        invariant
            pixel <= pixels,
            pixels == image@.pixels(),
            channels == image@.channels,
            1 <= channels <= 4,
            offset == colour_offset(image@.channels, colour as nat),
            offset < channels,
            base == pixel * channels,
            samples@ == image@.samples,
            samples.len() == pixels * channels,
            depth == image@.depth,
            count == image@.channels,
            image@.wf(),
            data.len() == pixel,
            forall|p: int| 0 <= p < pixel ==> #[trigger] data[p] == plane_byte(image@, colour as nat, p),
        decreases pixels - pixel,
    {
        assert(pixel * channels + channels <= pixels * channels) by (nonlinear_arith)
            requires
                pixel < pixels,
                channels >= 0,
        ;
        assert((pixel + 1) * channels == pixel * channels + channels) by (nonlinear_arith);
        let sample = samples[base + offset];
        assert(sample_fits(depth, image@.samples[base + offset]));
        data.push(sample_to_byte(depth, count, sample));
        base += channels;
        pixel += 1;
    }
    assert(data@ =~= plane(image@, colour as nat).data);
    data
}

/// The frame of the foreground of a buffer that is known to be binarized.
pub(crate) fn foreground_of_mask(image: &PixelBuffer) -> (frame: GrayFrame)
    requires
        is_binary(image@),
    ensures
        frame@ == foreground(image@),
{
    image.validity();
    let red = plane_bytes(image, 0);
    let green = plane_bytes(image, 1);
    let blue = plane_bytes(image, 2);
    let pixels = red.len();
    let mut data: Vec<u8> = Vec::with_capacity(pixels);
    let mut pixel: usize = 0;
    while pixel < pixels
        invariant
            pixel <= pixels,
            pixels == image@.pixels(),
            red@ == plane(image@, 0).data,
            green@ == plane(image@, 1).data,
            blue@ == plane(image@, 2).data,
            data.len() == pixel,
            forall|p: int| 0 <= p < pixel ==> #[trigger] data[p] == foreground_byte(image@, p),
        decreases pixels - pixel,
    {
        let lit = red[pixel] == LIT || green[pixel] == LIT || blue[pixel] == LIT;
        data.push(if lit { LIT } else { UNLIT });
        pixel += 1;
    }
    assert(data@ =~= foreground(image@).data);
    GrayFrame::assemble(image.width(), image.height(), data)
}

/// Splits a buffer into the frames of red, green and blue, in this order.
/// Each frame has the size of the buffer and holds, pixel by pixel, the
/// sample of its colour as a byte: see [`sample_byte`]. A grey buffer gives
/// three equal frames, and alpha is left out. The buffer is left as it is.
pub fn channel_wise_split(image: &PixelBuffer) -> (frames: (GrayFrame, GrayFrame, GrayFrame))
    ensures
        frames.0@ == plane(image@, 0),
        frames.1@ == plane(image@, 1),
        frames.2@ == plane(image@, 2),
{
    image.validity();
    let red = plane_bytes(image, 0);
    let green = plane_bytes(image, 1);
    let blue = plane_bytes(image, 2);
    (
        GrayFrame::assemble(image.width(), image.height(), red),
        GrayFrame::assemble(image.width(), image.height(), green),
        GrayFrame::assemble(image.width(), image.height(), blue),
    )
}

/// The frame of the foreground of a binarized buffer: lit wherever red,
/// green or blue is on.
///
/// A buffer that has not been binarized is refused as an input error.
pub fn foreground_plane(image: &PixelBuffer) -> (frame: Result<GrayFrame, Error>)
    ensures
        frame is Ok <==> is_binary(image@),
        frame matches Ok(lit) ==> lit@ == foreground(image@),
        frame matches Err(error) ==> error.is_input_error("image"@),
{
    if is_binarized(image) {
        Ok(foreground_of_mask(image))
    } else {
        Err(Error::input("image", "the buffer has not been binarized"))
    }
}

/// Lowering the cutoff never darkens a frame: a pixel that is lit in the
/// frame of a colour, or in the frame of the foreground, after binarizing at
/// the higher cutoff is lit there after binarizing at the lower one.
pub proof fn lemma_lower_cutoff_keeps_pixels_lit(view: BufferView, low: u8, high: u8, pixel: int)
    requires
        view.wf(),
        low <= high,
        0 <= pixel < view.pixels(),
    ensures
        forall|colour: nat|
            colour < 3 && #[trigger] plane_byte(binarized(view, high), colour, pixel) == LIT ==> plane_byte(
                binarized(view, low),
                colour,
                pixel,
            ) == LIT,
        foreground_byte(binarized(view, high), pixel) == LIT ==> foreground_byte(binarized(view, low), pixel)
            == LIT,
{
    lemma_lower_cutoff_grows_foreground(view, low, high);
    lemma_ends_of_range_as_bytes(view.depth, view.channels);
    let channels = view.channels as int;
    assert forall|colour: nat|
        colour < 3 && #[trigger] plane_byte(binarized(view, high), colour, pixel) == LIT implies plane_byte(
        binarized(view, low),
        colour,
        pixel,
    ) == LIT by {
        let offset = colour_offset(view.channels, colour) as int;
        assert(0 <= pixel * channels + offset < view.pixels() * channels) by (nonlinear_arith)
            requires
                0 <= pixel < view.pixels(),
                0 <= offset < channels,
        ;
        let index = pixel * channels + offset;
        let before = binarized(view, high).samples[index];
        assert(before == native_on(view.depth) || before == native_off(view.depth));
        assert(before == native_on(view.depth));
        assert(binarized(view, low).samples[index] == native_on(view.depth));
    }
    assert(plane_byte(binarized(view, high), 0, pixel) == LIT ==> plane_byte(binarized(view, low), 0, pixel) == LIT);
    assert(plane_byte(binarized(view, high), 1, pixel) == LIT ==> plane_byte(binarized(view, low), 1, pixel) == LIT);
    assert(plane_byte(binarized(view, high), 2, pixel) == LIT ==> plane_byte(binarized(view, low), 2, pixel) == LIT);
}

/// How often `value` occurs in `data`.
pub open spec fn occurrences(data: Seq<u8>, value: u8) -> nat
    decreases data.len(),
{
    if data.len() == 0 {
        0
    } else {
        occurrences(data.drop_last(), value) + if data.last() == value {
            1nat
        } else {
            0nat
        }
    }
}

/// The number of pixels of a frame at each of the 256 grey levels.
#[derive(Debug, PartialEq, Eq)]
pub struct GrayscaleHistogram(pub Vec<usize>);

/// Counts the pixels of `frame` at each grey level: bin `v` of the histogram
/// holds the number of pixels whose byte is `v`.
pub fn get_histogram(frame: &GrayFrame) -> (histogram: GrayscaleHistogram)
    ensures
        histogram.0.len() == 256,
        forall|value: u8| #[trigger] histogram.0[value as int] == occurrences(frame@.data, value),
{
    let data = frame.as_raw();
    let mut bins: Vec<usize> = Vec::with_capacity(256);
    let mut level: usize = 0;
    while level < 256
        invariant
            level <= 256,
            bins.len() == level,
            forall|v: int| 0 <= v < level ==> #[trigger] bins[v] == 0,
        decreases 256 - level,
    {
        bins.push(0);
        level += 1;
    }
    let mut i: usize = 0;
    while i < data.len()
        invariant
            i <= data.len(),
            data@ == frame@.data,
            bins.len() == 256,
            forall|value: u8| #[trigger] bins[value as int] == occurrences(data@.take(i as int), value),
            forall|value: u8| #[trigger] bins[value as int] <= i,
        decreases data.len() - i,
    {
        let byte = data[i];
        proof {
            let longer = data@.take(i + 1);
            assert(longer.drop_last() == data@.take(i as int));
            assert(longer.last() == byte);
        }
        let count = bins[byte as usize];
        bins.set(byte as usize, count + 1);
        i += 1;
    }
    assert(data@.take(data.len() as int) == data@);
    GrayscaleHistogram(bins)
}

} // verus!
