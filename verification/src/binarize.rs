//! The thresholder: every sample of a buffer becomes the top or the bottom of
//! the buffer's native range.

use vstd::prelude::*;

use crate::buffer::{native_maximum, native_off, native_on, sample_fits, BufferView, PixelBuffer, SampleDepth};
use crate::single::{
    exceeds, lemma_unit_cutoff_monotonic, lemma_unit_significand_is_nearest, sample_exceeds, unit_cutoff,
    unit_cutoff_bits, ONE_BITS,
};

verus! {

/// The cutoff `level`, given on the scale from 0 to 255, on the native scale
/// of `depth`: as it is for eight bits, times 65535 / 255 for sixteen, and
/// divided by 255 for the unit range.
pub open spec fn native_cutoff(depth: SampleDepth, level: u8) -> u32 {
    match depth {
        SampleDepth::Eight => level as u32,
        SampleDepth::Sixteen => (level * 257) as u32,
        SampleDepth::Unit => unit_cutoff_bits(level),
    }
}

/// Whether `sample` is strictly brighter than the cutoff `level`.
pub open spec fn brighter(depth: SampleDepth, sample: u32, level: u8) -> bool {
    match depth {
        SampleDepth::Unit => exceeds(sample, native_cutoff(depth, level)),
        _ => sample > native_cutoff(depth, level),
    }
}

/// What `sample` becomes when it is binarized at the cutoff `level`.
pub open spec fn binarized_sample(depth: SampleDepth, sample: u32, level: u8) -> u32 {
    if brighter(depth, sample, level) {
        native_on(depth)
    } else {
        native_off(depth)
    }
}

/// The buffer `view` binarized at the cutoff `level`.
pub open spec fn binarized(view: BufferView, level: u8) -> BufferView {
    view.with_samples(Seq::new(view.samples.len(), |i: int| binarized_sample(view.depth, view.samples[i], level)))
}

/// Whether every sample of `view` is the top or the bottom of the native range.
pub open spec fn is_binary(view: BufferView) -> bool {
    forall|i: int|
        0 <= i < view.samples.len() ==> #[trigger] view.samples[i] == native_on(view.depth) || view.samples[i]
            == native_off(view.depth)
}

/// Computes [`native_cutoff`].
pub fn scaled_cutoff(depth: SampleDepth, level: u8) -> (cutoff: u32)
    ensures
        cutoff == native_cutoff(depth, level),
{
    match depth {
        SampleDepth::Eight => level as u32,
        SampleDepth::Sixteen => (level as u32) * 257,
        SampleDepth::Unit => unit_cutoff(level),
    }
}

/// Rewrites every sample of `image` in place: to the top of the native range
/// where it is strictly brighter than `threshold`, to the bottom elsewhere.
/// The layout of the buffer stays as it is.
pub fn binarize_image(image: &mut PixelBuffer, threshold: u8)
    ensures
        final(image)@ == binarized(old(image)@, threshold),
        is_binary(final(image)@),
{
    let mut taken = PixelBuffer::vacant();
    core::mem::swap(image, &mut taken);
    let (depth, channels, width, height, mut samples) = taken.into_parts();
    let ghost before = samples@;
    let cutoff = scaled_cutoff(depth, threshold);
    let on = native_maximum(depth);
    let mut i: usize = 0;
    while i < samples.len()
        invariant
            i <= samples.len(),
            samples.len() == before.len(),
            cutoff == native_cutoff(depth, threshold),
            on == native_on(depth),
            sample_fits(depth, on),
            forall|j: int| 0 <= j < i ==> #[trigger] samples[j] == binarized_sample(depth, before[j], threshold),
            forall|j: int| i <= j < samples.len() ==> #[trigger] samples[j] == before[j],
        decreases samples.len() - i,
    {
        let sample = samples[i];
        let lit = match depth {
            SampleDepth::Unit => sample_exceeds(sample, cutoff),
            _ => sample > cutoff,
        };
        samples.set(i, if lit { on } else { 0 });
        i += 1;
    }
    proof {
        let after = binarized(old(image)@, threshold);
        assert(samples@ =~= after.samples);
        assert forall|j: int| 0 <= j < samples.len() implies sample_fits(depth, #[trigger] samples[j]) by {
            assert(samples[j] == binarized_sample(depth, before[j], threshold));
        }
    }
    *image = PixelBuffer::from_parts(depth, channels, width, height, samples);
}

/// Binarizing twice at one cutoff gives what binarizing once gives.
///
/// The one case left out is a buffer of the unit range that holds a value
/// above one and is binarized at the cutoff 255: the first pass turns such a
/// value into one, which is not above the cutoff, and the second turns it off.
pub proof fn lemma_binarize_idempotent(view: BufferView, level: u8)
    requires
        view.wf(),
        view.depth == SampleDepth::Unit && level == 255 ==> forall|i: int|
            0 <= i < view.samples.len() ==> !exceeds(#[trigger] view.samples[i], ONE_BITS),
    ensures
        binarized(binarized(view, level), level) == binarized(view, level),
        is_binary(binarized(view, level)),
{
    let once = binarized(view, level);
    let twice = binarized(once, level);
    lemma_unit_cutoff_monotonic(level, 255);
    if level > 0 {
        lemma_unit_significand_is_nearest(level);
    }
    assert forall|i: int| 0 <= i < view.samples.len() implies twice.samples[i] == once.samples[i] by {
        let sample = view.samples[i];
        assert(sample_fits(view.depth, sample));
        if brighter(view.depth, sample, level) {
            assert(brighter(view.depth, native_on(view.depth), level));
        }
    }
    assert(twice.samples =~= once.samples);
}

/// Lowering the cutoff never turns a sample off: what is brighter than the
/// higher cutoff is brighter than the lower one.
pub proof fn lemma_lower_cutoff_keeps_foreground(depth: SampleDepth, sample: u32, low: u8, high: u8)
    requires
        low <= high,
        brighter(depth, sample, high),
    ensures
        brighter(depth, sample, low),
        binarized_sample(depth, sample, low) == native_on(depth),
{
    lemma_unit_cutoff_monotonic(low, high);
}

/// Lowering the cutoff never shrinks the foreground of a buffer: a sample
/// that is on after binarizing at the higher cutoff is on after binarizing at
/// the lower one.
pub proof fn lemma_lower_cutoff_grows_foreground(view: BufferView, low: u8, high: u8)
    requires
        low <= high,
    ensures
        forall|i: int|
            0 <= i < view.samples.len() && #[trigger] binarized(view, high).samples[i] == native_on(view.depth)
                ==> binarized(view, low).samples[i] == native_on(view.depth),
{
    assert forall|i: int|
        0 <= i < view.samples.len() && #[trigger] binarized(view, high).samples[i] == native_on(
            view.depth,
        ) implies binarized(view, low).samples[i] == native_on(view.depth) by {
        lemma_lower_cutoff_keeps_foreground(view.depth, view.samples[i], low, high);
    }
}

} // verus!
