//! Pixel buffers: the tagged grid of samples that the detector works on, and
//! the single-channel frame in which contours are traced.

use vstd::prelude::*;

use crate::error::Error;
use crate::single::ONE_BITS;

verus! {

/// The most pixels a buffer may hold: contour tracing addresses pixels with
/// signed 32-bit numbers.
pub const MAX_PIXELS: u32 = 0x7FFF_FFFF;

/// How one sample of a buffer is stored.
#[derive(Debug, Clone, Copy, PartialEq, Eq, Structural)]
pub enum SampleDepth {
    /// Whole numbers from 0 to 255.
    Eight,
    /// Whole numbers from 0 to 65535.
    Sixteen,
    /// Single-precision values with a native range from zero to one, held as
    /// their bit patterns.
    Unit,
}

/// Whether `sample` is a value that a buffer of this depth can hold.
pub open spec fn sample_fits(depth: SampleDepth, sample: u32) -> bool {
    match depth {
        SampleDepth::Eight => sample <= 0xFF,
        SampleDepth::Sixteen => sample <= 0xFFFF,
        SampleDepth::Unit => true,
    }
}

/// The sample that stands for "off", the bottom of the native range.
pub open spec fn native_off(depth: SampleDepth) -> u32 {
    0
}

/// The sample that stands for "on", the top of the native range.
pub open spec fn native_on(depth: SampleDepth) -> u32 {
    match depth {
        SampleDepth::Eight => 0xFF,
        SampleDepth::Sixteen => 0xFFFF,
        SampleDepth::Unit => ONE_BITS,
    }
}

/// Computes [`native_on`].
pub fn native_maximum(depth: SampleDepth) -> (sample: u32)
    ensures
        sample == native_on(depth),
        sample_fits(depth, sample),
{
    match depth {
        SampleDepth::Eight => 0xFF,
        SampleDepth::Sixteen => 0xFFFF,
        SampleDepth::Unit => ONE_BITS,
    }
}

/// What a [`PixelBuffer`] holds.
pub struct BufferView {
    pub depth: SampleDepth,
    pub channels: nat,
    pub width: nat,
    pub height: nat,
    /// Row by row, pixel by pixel, channel by channel.
    pub samples: Seq<u32>,
}

impl BufferView {
    /// One to four channels, at most [`MAX_PIXELS`] pixels, one sample per
    /// pixel and channel, each within the range of the depth.
    pub open spec fn wf(self) -> bool {
        &&& 1 <= self.channels <= 4
        &&& self.width * self.height <= MAX_PIXELS
        &&& self.samples.len() == self.width * self.height * self.channels
        &&& forall|i: int| 0 <= i < self.samples.len() ==> sample_fits(self.depth, #[trigger] self.samples[i])
    }

    /// The number of pixels.
    pub open spec fn pixels(self) -> nat {
        self.width * self.height
    }

    /// The sample of channel `channel` of pixel number `pixel`.
    pub open spec fn at(self, pixel: int, channel: int) -> u32 {
        self.samples[pixel * self.channels + channel]
    }

    /// The view with `samples` in place of its own.
    pub open spec fn with_samples(self, samples: Seq<u32>) -> BufferView {
        BufferView { samples, ..self }
    }
}

/// A grid of pixels with a tagged sample depth and one to four channels.
#[derive(Debug)]
pub struct PixelBuffer {
    depth: SampleDepth,
    channels: u8,
    width: u32,
    height: u32,
    samples: Vec<u32>,
}

impl View for PixelBuffer {
    type V = BufferView;

    closed spec fn view(&self) -> BufferView {
        BufferView {
            depth: self.depth,
            channels: self.channels as nat,
            width: self.width as nat,
            height: self.height as nat,
            samples: self.samples@,
        }
    }
}

/// The first index at which `samples` holds a value outside the range of
/// `depth`, if there is one.
fn first_misfit(depth: SampleDepth, samples: &Vec<u32>) -> (found: Option<usize>)
    ensures
        match found {
            Some(i) => i < samples.len() && !sample_fits(depth, samples[i as int]),
            None => forall|i: int| 0 <= i < samples.len() ==> sample_fits(depth, #[trigger] samples[i]),
        },
{
    let limit: u32 = match depth {
        SampleDepth::Eight => 0xFF,
        SampleDepth::Sixteen => 0xFFFF,
        SampleDepth::Unit => 0xFFFF_FFFF,
    };
    let mut i: usize = 0;
    while i < samples.len()
        invariant
            i <= samples.len(),
            forall|s: u32| sample_fits(depth, s) <==> s <= limit,
            forall|j: int| 0 <= j < i ==> sample_fits(depth, #[trigger] samples[j]),
        decreases samples.len() - i,
    {
        if samples[i] > limit {
            return Some(i);
        }
        i += 1;
    }
    None
}

impl PixelBuffer {
    #[verifier::type_invariant]
    spec fn well_formed(&self) -> bool {
        self@.wf()
    }

    /// Whether a buffer can be made of these parts.
    pub open spec fn accepts(
        depth: SampleDepth,
        channels: u8,
        width: u32,
        height: u32,
        samples: Seq<u32>,
    ) -> bool {
        BufferView {
            depth,
            channels: channels as nat,
            width: width as nat,
            height: height as nat,
            samples,
        }.wf()
    }

    /// Makes a buffer of `width` by `height` pixels with `channels` samples
    /// each, taken from `samples` row by row.
    ///
    /// A channel count outside one to four is an unsupported format. Too many
    /// pixels, a sample count that does not match, or a sample outside the
    /// range of `depth` is an input error.
    pub fn new(depth: SampleDepth, channels: u8, width: u32, height: u32, samples: Vec<u32>) -> (made:
        Result<PixelBuffer, Error>)
        ensures
            made is Ok <==> Self::accepts(depth, channels, width, height, samples@),
            made matches Ok(buffer) ==> buffer@ == (BufferView {
                depth,
                channels: channels as nat,
                width: width as nat,
                height: height as nat,
                samples: samples@,
            }),
            made matches Err(error) ==> if 1 <= channels <= 4 {
                error.is_input_error(if width * height > MAX_PIXELS {
                    "width"@
                } else {
                    "samples"@
                })
            } else {
                error == Error::UnsupportedFormat
            },
    {
        if channels < 1 || channels > 4 {
            return Err(Error::UnsupportedFormat);
        }
        assert(width * height <= 0xFFFF_FFFF * 0xFFFF_FFFF) by (nonlinear_arith)
            requires
                width <= 0xFFFF_FFFF,
                height <= 0xFFFF_FFFF,
        ;
        let pixels: u64 = (width as u64) * (height as u64);
        if pixels > MAX_PIXELS as u64 {
            return Err(Error::input("width", "the image holds too many pixels"));
        }
        assert(pixels * channels <= 0x7FFF_FFFF * 4) by (nonlinear_arith)
            requires
                pixels <= 0x7FFF_FFFF,
                channels <= 4,
        ;
        let expected: u64 = pixels * (channels as u64);
        if samples.len() as u64 != expected {
            return Err(Error::input("samples", "one sample is needed per pixel and channel"));
        }
        match first_misfit(depth, &samples) {
            Some(_) => Err(Error::input("samples", "a sample lies outside the range of the depth")),
            None => Ok(PixelBuffer { depth, channels, width, height, samples }),
        }
    }

    /// States what every buffer satisfies.
    pub fn validity(&self)
        ensures
            self@.wf(),
    {
        proof {
            use_type_invariant(self);
        }
    }

    /// The depth of the samples.
    pub fn depth(&self) -> (depth: SampleDepth)
        ensures
            depth == self@.depth,
    {
        self.depth
    }

    /// The number of channels, from one to four.
    pub fn channels(&self) -> (channels: u8)
        ensures
            channels == self@.channels,
            1 <= channels <= 4,
    {
        proof {
            use_type_invariant(self);
        }
        self.channels
    }

    /// The number of pixels in a row.
    pub fn width(&self) -> (width: u32)
        ensures
            width == self@.width,
    {
        self.width
    }

    /// The number of rows.
    pub fn height(&self) -> (height: u32)
        ensures
            height == self@.height,
    {
        self.height
    }

    /// The number of pixels.
    pub fn pixels(&self) -> (count: u32)
        ensures
            count == self@.pixels(),
            count <= MAX_PIXELS,
    {
        proof {
            use_type_invariant(self);
            assert(self.width * self.height <= MAX_PIXELS);
        }
        ((self.width as u64) * (self.height as u64)) as u32
    }

    /// The number of samples.
    pub fn len(&self) -> (count: usize)
        ensures
            count == self@.samples.len(),
    {
        self.samples.len()
    }

    /// The samples, row by row.
    pub fn samples(&self) -> (samples: &Vec<u32>)
        ensures
            samples@ == self@.samples,
    {
        &self.samples
    }

    /// The sample at `index`, if there is one.
    pub fn get(&self, index: usize) -> (sample: Option<u32>)
        ensures
            sample == if index < self@.samples.len() {
                Some(self@.samples[index as int])
            } else {
                None
            },
    {
        if index < self.samples.len() {
            Some(self.samples[index])
        } else {
            None
        }
    }

    /// The buffer without pixels that stands in for one whose parts are
    /// being worked on.
    pub(crate) fn vacant() -> (buffer: PixelBuffer)
        ensures
            buffer@.samples.len() == 0,
    {
        PixelBuffer { depth: SampleDepth::Eight, channels: 1, width: 0, height: 0, samples: Vec::new() }
    }

    /// Takes the buffer apart.
    pub(crate) fn into_parts(self) -> (parts: (SampleDepth, u8, u32, u32, Vec<u32>))
        ensures
            self@ == (BufferView {
                depth: parts.0,
                channels: parts.1 as nat,
                width: parts.2 as nat,
                height: parts.3 as nat,
                samples: parts.4@,
            }),
            self@.wf(),
    {
        proof {
            use_type_invariant(&self);
        }
        (self.depth, self.channels, self.width, self.height, self.samples)
    }

    /// Puts a buffer together from parts that are known to fit.
    pub(crate) fn from_parts(
        depth: SampleDepth,
        channels: u8,
        width: u32,
        height: u32,
        samples: Vec<u32>,
    ) -> (buffer: PixelBuffer)
        requires
            Self::accepts(depth, channels, width, height, samples@),
        ensures
            buffer@ == (BufferView {
                depth,
                channels: channels as nat,
                width: width as nat,
                height: height as nat,
                samples: samples@,
            }),
    {
        PixelBuffer { depth, channels, width, height, samples }
    }

    /// A buffer equal to this one.
    pub fn duplicate(&self) -> (copy: PixelBuffer)
        ensures
            copy@ == self@,
    {
        proof {
            use_type_invariant(self);
        }
        let mut samples: Vec<u32> = Vec::with_capacity(self.samples.len());
        let mut i: usize = 0;
        while i < self.samples.len()
            invariant
                i <= self.samples.len(),
                samples@ == self.samples@.take(i as int),
            decreases self.samples.len() - i,
        {
            samples.push(self.samples[i]);
            assert(self.samples@.take(i + 1) == self.samples@.take(i as int).push(self.samples@[i as int]));
            i += 1;
        }
        assert(self.samples@.take(self.samples.len() as int) == self.samples@);
        PixelBuffer {
            depth: self.depth,
            channels: self.channels,
            width: self.width,
            height: self.height,
            samples,
        }
    }
}

/// What a [`GrayFrame`] holds.
pub struct FrameView {
    pub width: nat,
    pub height: nat,
    /// One byte per pixel, row by row; a pixel is foreground when its byte
    /// is not zero.
    pub data: Seq<u8>,
}

impl FrameView {
    /// At most [`MAX_PIXELS`] pixels and one byte for each.
    pub open spec fn wf(self) -> bool {
        &&& self.width * self.height <= MAX_PIXELS
        &&& self.data.len() == self.width * self.height
    }

    /// Whether no pixel is foreground.
    pub open spec fn dark(self) -> bool {
        forall|i: int| 0 <= i < self.data.len() ==> #[trigger] self.data[i] == 0
    }

    /// Whether the pixel in column `x` of row `y` exists and is foreground.
    pub open spec fn lit(self, x: int, y: int) -> bool {
        0 <= x < self.width && 0 <= y < self.height && self.data[y * self.width + x] != 0
    }
}

/// A single-channel image of one byte per pixel.
#[derive(Debug)]
pub struct GrayFrame {
    width: u32,
    height: u32,
    data: Vec<u8>,
}

impl View for GrayFrame {
    type V = FrameView;

    closed spec fn view(&self) -> FrameView {
        FrameView { width: self.width as nat, height: self.height as nat, data: self.data@ }
    }
}

impl GrayFrame {
    #[verifier::type_invariant]
    spec fn well_formed(&self) -> bool {
        self@.wf()
    }

    /// Makes a frame of `width` by `height` pixels from `data`, row by row.
    /// There is none when the pixels are too many or `data` has another
    /// length than their number.
    pub fn from_raw(width: u32, height: u32, data: Vec<u8>) -> (made: Option<GrayFrame>)
        ensures
            made is Some <==> (FrameView { width: width as nat, height: height as nat, data: data@ }).wf(),
            made matches Some(frame) ==> frame@ == (FrameView {
                width: width as nat,
                height: height as nat,
                data: data@,
            }),
    {
        assert(width * height <= 0xFFFF_FFFF * 0xFFFF_FFFF) by (nonlinear_arith)
            requires
                width <= 0xFFFF_FFFF,
                height <= 0xFFFF_FFFF,
        ;
        let pixels: u64 = (width as u64) * (height as u64);
        if pixels > MAX_PIXELS as u64 || data.len() as u64 != pixels {
            None
        } else {
            Some(GrayFrame { width, height, data })
        }
    }

    /// Puts a frame together from parts that are known to fit.
    pub(crate) fn assemble(width: u32, height: u32, data: Vec<u8>) -> (frame: GrayFrame)
        requires
            (FrameView { width: width as nat, height: height as nat, data: data@ }).wf(),
        ensures
            frame@ == (FrameView { width: width as nat, height: height as nat, data: data@ }),
    {
        GrayFrame { width, height, data }
    }

    /// States what every frame satisfies.
    pub fn validity(&self)
        ensures
            self@.wf(),
    {
        proof {
            use_type_invariant(self);
        }
    }

    /// The number of pixels in a row.
    pub fn width(&self) -> (width: u32)
        ensures
            width == self@.width,
    {
        self.width
    }

    /// The number of rows.
    pub fn height(&self) -> (height: u32)
        ensures
            height == self@.height,
    {
        self.height
    }

    /// The bytes of the frame, row by row.
    pub fn as_raw(&self) -> (data: &Vec<u8>)
        ensures
            data@ == self@.data,
    {
        &self.data
    }
}

} // verus!
