//! The detector: its settings, and the sequence of steps that leads from an
//! image to the stars on which its three colour channels agree.
//!
//! Two kinds of work are done for the detector by its caller: filtering the
//! source image by scale, and measuring traced contours. The detector asks
//! for each with a [`Request`], is given the outcome in a [`Reply`], and
//! decides what comes next.

use vstd::prelude::*;

use crate::binarize::{binarize_image, binarized, brighter};
use crate::buffer::{native_off, BufferView, PixelBuffer};
use crate::centroid::{
    consensus, distinct_coords, extract_stars, find_rgb_stars, fits, lemma_stars_fit, outlines, stars_of,
    trace_contours, traced_contours, Contour, OutlineMeasure, Point, StarCenter,
};
use crate::error::Error;
use crate::image_extensions::{
    channel_wise_split, colour_offset, foreground, foreground_of_mask, lemma_ends_of_range_as_bytes, plane,
};
use crate::star_count::{decide, lower_cutoff, lowered, search_step, SearchStep, INITIAL_CUTOFF};

verus! {

/// The number of stars that a detection looks for unless told otherwise.
pub const DEFAULT_MINIMUM_STAR_COUNT: usize = 1000;

/// The smallest radius of a star unless told otherwise.
pub const DEFAULT_MINIMUM_STAR_SIZE: usize = 1;

/// The largest radius of a star unless told otherwise.
pub const DEFAULT_MAXIMUM_STAR_SIZE: usize = 24;

/// The most scales into which an image is decomposed unless told otherwise.
pub const DEFAULT_DECOMPOSITION_CAP: usize = 20;

/// The natural logarithm of `side`, rounded down, and zero for a side of
/// zero. Each bound is the smallest whole number that is not below a power of
/// Euler's number, from the first power to the twenty-second.
pub open spec fn natural_log_floor(side: u32) -> nat {
    if side < 3 {
        0
    } else if side < 8 {
        1
    } else if side < 21 {
        2
    } else if side < 55 {
        3
    } else if side < 149 {
        4
    } else if side < 404 {
        5
    } else if side < 1097 {
        6
    } else if side < 2981 {
        7
    } else if side < 8104 {
        8
    } else if side < 22027 {
        9
    } else if side < 59875 {
        10
    } else if side < 162755 {
        11
    } else if side < 442414 {
        12
    } else if side < 1202605 {
        13
    } else if side < 3269018 {
        14
    } else if side < 8886111 {
        15
    } else if side < 24154953 {
        16
    } else if side < 65659970 {
        17
    } else if side < 178482301 {
        18
    } else if side < 485165196 {
        19
    } else if side < 1318815735 {
        20
    } else if side < 3584912847 {
        21
    } else {
        22
    }
}

/// Computes [`natural_log_floor`].
pub fn log_floor(side: u32) -> (floor: usize)
    ensures
        floor == natural_log_floor(side),
        floor <= 22,
{
    if side < 3 {
        0
    } else if side < 8 {
        1
    } else if side < 21 {
        2
    } else if side < 55 {
        3
    } else if side < 149 {
        4
    } else if side < 404 {
        5
    } else if side < 1097 {
        6
    } else if side < 2981 {
        7
    } else if side < 8104 {
        8
    } else if side < 22027 {
        9
    } else if side < 59875 {
        10
    } else if side < 162755 {
        11
    } else if side < 442414 {
        12
    } else if side < 1202605 {
        13
    } else if side < 3269018 {
        14
    } else if side < 8886111 {
        15
    } else if side < 24154953 {
        16
    } else if side < 65659970 {
        17
    } else if side < 178482301 {
        18
    } else if side < 485165196 {
        19
    } else if side < 1318815735 {
        20
    } else if side < 3584912847 {
        21
    } else {
        22
    }
}

/// The settings of a detection on an image of `width` by `height` pixels.
#[derive(Debug, Clone, Copy, PartialEq, Eq, Structural)]
pub struct StarDetect {
    pub width: u32,
    pub height: u32,
    /// The detections that the cutoff search wants to see.
    pub minimum_star_count: usize,
    /// The smallest radius of a star, included.
    pub minimum_star_size: usize,
    /// The largest radius of a star, included.
    pub maximum_star_size: usize,
    /// The most scales into which the image is decomposed.
    pub maximum_decomposition_levels: usize,
}

/// What is wrong with a set of settings, if anything.
#[derive(Debug, Clone, Copy, PartialEq, Eq, Structural)]
pub enum Flaw {
    /// Nothing: a detection can run.
    Sound,
    /// The target count is zero.
    NoTarget,
    /// The smallest radius is above the largest.
    EmptyBand,
}

impl StarDetect {
    /// The settings with their defaults: 1000 stars, radii from 1 to 24, at
    /// most 20 scales.
    pub fn new(width: u32, height: u32) -> (detector: StarDetect)
        ensures
            detector == (StarDetect {
                width,
                height,
                minimum_star_count: DEFAULT_MINIMUM_STAR_COUNT,
                minimum_star_size: DEFAULT_MINIMUM_STAR_SIZE,
                maximum_star_size: DEFAULT_MAXIMUM_STAR_SIZE,
                maximum_decomposition_levels: DEFAULT_DECOMPOSITION_CAP,
            }),
    {
        StarDetect {
            width,
            height,
            minimum_star_count: DEFAULT_MINIMUM_STAR_COUNT,
            minimum_star_size: DEFAULT_MINIMUM_STAR_SIZE,
            maximum_star_size: DEFAULT_MAXIMUM_STAR_SIZE,
            maximum_decomposition_levels: DEFAULT_DECOMPOSITION_CAP,
        }
    }

    /// The settings for the image held by `source`, with their defaults.
    pub fn try_from(source: &PixelBuffer) -> (detector: Result<StarDetect, Error>)
        ensures
            detector matches Ok(made) && made == (StarDetect {
                width: source@.width as u32,
                height: source@.height as u32,
                minimum_star_count: DEFAULT_MINIMUM_STAR_COUNT,
                minimum_star_size: DEFAULT_MINIMUM_STAR_SIZE,
                maximum_star_size: DEFAULT_MAXIMUM_STAR_SIZE,
                maximum_decomposition_levels: DEFAULT_DECOMPOSITION_CAP,
            }),
    {
        Ok(StarDetect::new(source.width(), source.height()))
    }

    /// The same settings with another target count.
    pub fn with_minimum_star_count(self, minimum_star_count: usize) -> (detector: StarDetect)
        ensures
            detector == (StarDetect { minimum_star_count, ..self }),
    {
        StarDetect { minimum_star_count, ..self }
    }

    /// The same settings with another smallest radius.
    pub fn with_minimum_star_size(self, minimum_star_size: usize) -> (detector: StarDetect)
        ensures
            detector == (StarDetect { minimum_star_size, ..self }),
    {
        StarDetect { minimum_star_size, ..self }
    }

    /// The same settings with another largest radius.
    pub fn with_maximum_star_size(self, maximum_star_size: usize) -> (detector: StarDetect)
        ensures
            detector == (StarDetect { maximum_star_size, ..self }),
    {
        StarDetect { maximum_star_size, ..self }
    }

    /// The same settings with another cap on the number of scales.
    pub fn with_maximum_decomposition_levels(self, maximum_decomposition_levels: usize) -> (detector: StarDetect)
        ensures
            detector == (StarDetect { maximum_decomposition_levels, ..self }),
    {
        StarDetect { maximum_decomposition_levels, ..self }
    }

    /// What is wrong with the settings: a target of zero before an empty
    /// band.
    pub open spec fn flaw(self) -> Flaw {
        if self.minimum_star_count == 0 {
            Flaw::NoTarget
        } else if self.minimum_star_size > self.maximum_star_size {
            Flaw::EmptyBand
        } else {
            Flaw::Sound
        }
    }

    /// Checks the settings before anything runs. A target count of zero is
    /// an input error about `minimum_star_count`, a smallest radius above the
    /// largest one about `minimum_star_size`.
    pub fn validate(&self) -> (checked: Result<(), Error>)
        ensures
            checked is Ok <==> self.flaw() == Flaw::Sound,
            checked matches Err(error) ==> error.is_input_error(
                if self.flaw() == Flaw::NoTarget {
                    "minimum_star_count"@
                } else {
                    "minimum_star_size"@
                },
            ),
    {
        if self.minimum_star_count == 0 {
            Err(Error::input("minimum_star_count", "at least one star must be asked for"))
        } else if self.minimum_star_size > self.maximum_star_size {
            Err(Error::input("minimum_star_size", "the smallest radius lies above the largest"))
        } else {
            Ok(())
        }
    }

    /// The number of scales of the decomposition.
    pub open spec fn levels(self) -> nat {
        let side = if self.width <= self.height {
            self.width
        } else {
            self.height
        };
        if natural_log_floor(side) <= self.maximum_decomposition_levels {
            natural_log_floor(side)
        } else {
            self.maximum_decomposition_levels as nat
        }
    }

    /// The number of scales into which the image is decomposed: the natural
    /// logarithm of its shorter side, rounded down, and at most the cap.
    pub fn decomposition_levels(&self) -> (levels: usize)
        ensures
            levels == self.levels(),
    {
        let side = if self.width <= self.height {
            self.width
        } else {
            self.height
        };
        let floor = log_floor(side);
        if floor <= self.maximum_decomposition_levels {
            floor
        } else {
            self.maximum_decomposition_levels
        }
    }

    /// Whether a layer of the decomposition goes into the filtered image:
    /// it has a scale, and the scale lies in the lower half of the scales.
    /// The residue, which has no scale, stays out.
    pub fn keeps_layer(&self, pixel_scale: Option<usize>) -> (kept: bool)
        ensures
            kept == (pixel_scale matches Some(scale) && scale < self.levels() / 2),
    {
        match pixel_scale {
            Some(scale) => scale < self.decomposition_levels() / 2,
            None => false,
        }
    }

    /// Begins a detection. Settings with a flaw fail it before any work is
    /// asked for; otherwise it waits for the filtered image.
    pub fn compute_star_centers(&self) -> (detection: Detection)
        ensures
            match self.flaw() {
                Flaw::Sound => detection == Detection::Filtering { settings: *self },
                Flaw::NoTarget => detection matches Detection::Failed(error) && error.is_input_error(
                    "minimum_star_count"@,
                ),
                Flaw::EmptyBand => detection matches Detection::Failed(error) && error.is_input_error(
                    "minimum_star_size"@,
                ),
            },
    {
        match self.validate() {
            Ok(()) => Detection::Filtering { settings: *self },
            Err(error) => Detection::Failed(error),
        }
    }
}

/// The borders of the foreground of `filtered` binarized at `cutoff`.
pub open spec fn probe_outlines(filtered: BufferView, cutoff: u8) -> Seq<Seq<Point>> {
    traced_contours(foreground(binarized(filtered, cutoff)))
}

/// The borders of the colour `colour` of `filtered` binarized at `cutoff`.
pub open spec fn channel_outlines(filtered: BufferView, cutoff: u8, colour: nat) -> Seq<Seq<Point>> {
    traced_contours(plane(binarized(filtered, cutoff), colour))
}

/// Whether no sample of `view` is brighter than `cutoff`.
pub open spec fn dark_at(view: BufferView, cutoff: u8) -> bool {
    forall|i: int| 0 <= i < view.samples.len() ==> !brighter(view.depth, #[trigger] view.samples[i], cutoff)
}

/// Binarizes a copy of `filtered` at `cutoff` and traces the borders of its
/// foreground. The buffer itself is left as it is. Where no sample is
/// brighter than the cutoff there is no border.
pub fn probe_contours(filtered: &PixelBuffer, cutoff: u8) -> (contours: Vec<Contour>)
    ensures
        outlines(contours@) == probe_outlines(filtered@, cutoff),
        dark_at(filtered@, cutoff) ==> contours.len() == 0,
{
    let mut copy = filtered.duplicate();
    binarize_image(&mut copy, cutoff);
    filtered.validity();
    let frame = foreground_of_mask(&copy);
    proof {
        if dark_at(filtered@, cutoff) {
            lemma_dark_buffer_has_dark_foreground(filtered@, cutoff);
        }
    }
    trace_contours(&frame)
}

/// Where no sample of a buffer is brighter than the cutoff, the foreground
/// of the binarized buffer has no lit pixel.
pub proof fn lemma_dark_buffer_has_dark_foreground(view: BufferView, cutoff: u8)
    requires
        view.wf(),
        dark_at(view, cutoff),
    ensures
        foreground(binarized(view, cutoff)).dark(),
{
    let mask = binarized(view, cutoff);
    let frame = foreground(mask);
    let channels = mask.channels as int;
    lemma_ends_of_range_as_bytes(mask.depth, mask.channels);
    assert forall|pixel: int| 0 <= pixel < frame.data.len() implies #[trigger] frame.data[pixel] == 0 by {
        assert forall|offset: int| 0 <= offset < channels implies #[trigger] mask.at(pixel, offset) == native_off(
            mask.depth,
        ) by {
            assert(0 <= pixel * channels + offset < mask.pixels() * channels) by (nonlinear_arith)
                requires
                    0 <= pixel < mask.pixels(),
                    0 <= offset < channels,
            ;
            let index = pixel * channels + offset;
            assert(!brighter(view.depth, view.samples[index], cutoff));
        }
        assert(mask.at(pixel, colour_offset(mask.channels, 0) as int) == native_off(mask.depth));
        assert(mask.at(pixel, colour_offset(mask.channels, 1) as int) == native_off(mask.depth));
        assert(mask.at(pixel, colour_offset(mask.channels, 2) as int) == native_off(mask.depth));
    }
}

/// Binarizes `filtered` at `cutoff` and traces the borders of its red, green
/// and blue channel, in this order.
pub fn channel_contours(filtered: PixelBuffer, cutoff: u8) -> (contours: (Vec<Contour>, Vec<Contour>, Vec<Contour>))
    ensures
        outlines(contours.0@) == channel_outlines(filtered@, cutoff, 0),
        outlines(contours.1@) == channel_outlines(filtered@, cutoff, 1),
        outlines(contours.2@) == channel_outlines(filtered@, cutoff, 2),
{
    let mut mask = filtered;
    binarize_image(&mut mask, cutoff);
    let (red, green, blue) = channel_wise_split(&mask);
    (trace_contours(&red), trace_contours(&green), trace_contours(&blue))
}

/// What the detector asks of its caller.
#[derive(Debug, Clone, Copy, PartialEq, Eq, Structural)]
pub enum Request {
    /// Decompose the source image into `levels` scales, add up the layers
    /// whose scale is below `below`, bring the sum to the unit range, and
    /// reply with [`Reply::Filtered`].
    Filter { levels: usize, below: usize },
    /// Measure every contour of [`Detection::pending`] and reply with
    /// [`Reply::Measured`].
    Measure,
    /// Nothing more: the detection has ended.
    Nothing,
}

/// What the caller hands back.
#[derive(Debug)]
pub enum Reply {
    /// The filtered image.
    Filtered(PixelBuffer),
    /// For each pending list of contours the measures of its contours.
    Measured(Vec<Vec<OutlineMeasure>>),
}

/// A detection under way.
#[derive(Debug)]
pub enum Detection {
    /// Waiting for the filtered image.
    Filtering { settings: StarDetect },
    /// Searching the cutoff: waiting for the measures of the contours that
    /// the foreground of the filtered image has at `cutoff`.
    Probing { settings: StarDetect, filtered: PixelBuffer, cutoff: u8, contours: Vec<Contour> },
    /// The cutoff is found: waiting for the measures of the contours of the
    /// three colour channels.
    Resolving { settings: StarDetect, red: Vec<Contour>, green: Vec<Contour>, blue: Vec<Contour> },
    /// Ended with the stars on which the channels agree.
    Finished(Vec<StarCenter>),
    /// Ended without a result.
    Failed(Error),
}

/// The stars of `contours` under `settings`.
pub open spec fn extracted(settings: StarDetect, contours: Seq<Contour>, measures: Seq<OutlineMeasure>) -> Seq<
    StarCenter,
> {
    stars_of(
        outlines(contours),
        measures,
        settings.width as nat,
        settings.height as nat,
        settings.minimum_star_size as nat,
        settings.maximum_star_size as nat,
        contours.len(),
    )
}

/// Whether `star` lies inside the image of `settings` and has a radius
/// within their band.
pub open spec fn sound_star(settings: StarDetect, star: StarCenter) -> bool {
    fits(
        star,
        settings.width as nat,
        settings.height as nat,
        settings.minimum_star_size as nat,
        settings.maximum_star_size as nat,
    )
}

/// Whether `state` is the search state that probes `filtered` at `cutoff`:
/// it holds the borders of the foreground at that cutoff, which are none
/// where no sample is brighter than the cutoff.
pub open spec fn probes(state: Detection, settings: StarDetect, filtered: BufferView, cutoff: u8) -> bool {
    state matches Detection::Probing { settings: kept, filtered: held, cutoff: at, contours } && kept
        == settings && held@ == filtered && at == cutoff && outlines(contours@) == probe_outlines(
        filtered,
        cutoff,
    ) && (dark_at(filtered, cutoff) ==> contours.len() == 0)
}

/// Whether `state` is the state that resolves `filtered` at `cutoff`.
pub open spec fn resolves(state: Detection, settings: StarDetect, filtered: BufferView, cutoff: u8) -> bool {
    state matches Detection::Resolving { settings: kept, red, green, blue } && kept == settings && outlines(
        red@,
    ) == channel_outlines(filtered, cutoff, 0) && outlines(green@) == channel_outlines(filtered, cutoff, 1)
        && outlines(blue@) == channel_outlines(filtered, cutoff, 2)
}

/// Whether `state` has failed with an input error about `name`.
pub open spec fn refused(state: Detection, name: Seq<char>) -> bool {
    state matches Detection::Failed(error) && error.is_input_error(name)
}

/// Whether `after` is what a detection in the state `before` becomes when it
/// is given `reply`.
///
/// Settings with a flaw fail a detection that has not ended, whatever the
/// reply. The filtered image must have the size of the source, and it opens
/// the search at the first cutoff of the schedule. A probe that found enough
/// stars ends the search at its cutoff and goes on to the colour channels; one
/// that did not leads to the next cutoff, or fails the detection for want of
/// convergence when the cutoff was zero. The measures of the channels end the
/// detection with the consensus: stars at different coordinates, each inside
/// the image and with a radius within the band. A reply that does not answer
/// the request, or measures that do not match the contours, fail the
/// detection, and a detection that has ended stays as it is.
pub open spec fn follows(before: Detection, reply: Reply, after: Detection) -> bool {
    match before {
        Detection::Filtering { settings } => match settings.flaw() {
            Flaw::NoTarget => refused(after, "minimum_star_count"@),
            Flaw::EmptyBand => refused(after, "minimum_star_size"@),
            Flaw::Sound => match reply {
                Reply::Filtered(filtered) => if filtered@.width == settings.width && filtered@.height
                    == settings.height {
                    probes(after, settings, filtered@, lowered(INITIAL_CUTOFF))
                } else {
                    refused(after, "filtered"@)
                },
                Reply::Measured(_) => refused(after, "reply"@),
            },
        },
        Detection::Probing { settings, filtered, cutoff, contours } => match settings.flaw() {
            Flaw::NoTarget => refused(after, "minimum_star_count"@),
            Flaw::EmptyBand => refused(after, "minimum_star_size"@),
            Flaw::Sound => match reply {
                Reply::Measured(measures) => if measures.len() == 1 && measures[0].len() == contours.len() {
                    match search_step(
                        cutoff,
                        extracted(settings, contours@, measures[0]@).len(),
                        settings.minimum_star_count as nat,
                    ) {
                        SearchStep::Found(at) => resolves(after, settings, filtered@, at),
                        SearchStep::Probe(next) => probes(after, settings, filtered@, next),
                        SearchStep::Exhausted => after == Detection::Failed(Error::ConvergenceFailure),
                    }
                } else {
                    refused(after, "measures"@)
                },
                Reply::Filtered(_) => refused(after, "reply"@),
            },
        },
        Detection::Resolving { settings, red, green, blue } => match settings.flaw() {
            Flaw::NoTarget => refused(after, "minimum_star_count"@),
            Flaw::EmptyBand => refused(after, "minimum_star_size"@),
            Flaw::Sound => match reply {
                Reply::Measured(measures) => if measures.len() == 3 && measures[0].len() == red.len()
                    && measures[1].len() == green.len() && measures[2].len() == blue.len() {
                    after matches Detection::Finished(stars) && stars@ == consensus(
                        extracted(settings, red@, measures[0]@),
                        extracted(settings, green@, measures[1]@),
                        extracted(settings, blue@, measures[2]@),
                    ) && distinct_coords(stars@) && forall|i: int|
                        0 <= i < stars.len() ==> sound_star(settings, #[trigger] stars[i])
                } else {
                    refused(after, "measures"@)
                },
                Reply::Filtered(_) => refused(after, "reply"@),
            },
        },
        Detection::Finished(_) => after == before,
        Detection::Failed(_) => after == before,
    }
}

impl Detection {
    /// What the caller is to do next.
    pub fn request(&self) -> (request: Request)
        ensures
            request == match *self {
                Detection::Filtering { settings } => Request::Filter {
                    levels: settings.levels() as usize,
                    below: (settings.levels() / 2) as usize,
                },
                Detection::Probing { .. } => Request::Measure,
                Detection::Resolving { .. } => Request::Measure,
                Detection::Finished(_) => Request::Nothing,
                Detection::Failed(_) => Request::Nothing,
            },
    {
        match self {
            Detection::Filtering { settings } => {
                let levels = settings.decomposition_levels();
                Request::Filter { levels, below: levels / 2 }
            },
            Detection::Probing { .. } => Request::Measure,
            Detection::Resolving { .. } => Request::Measure,
            Detection::Finished(_) => Request::Nothing,
            Detection::Failed(_) => Request::Nothing,
        }
    }

    /// The lists of contours that wait to be measured: one list while the
    /// cutoff is searched, then those of red, green and blue. There is none
    /// when no measure is asked for.
    pub fn pending(&self) -> (lists: Vec<&Vec<Contour>>)
        ensures
            match *self {
                Detection::Probing { contours, .. } => lists@ == seq![&contours],
                Detection::Resolving { red, green, blue, .. } => lists@ == seq![&red, &green, &blue],
                _ => lists@.len() == 0,
            },
    {
        let mut lists: Vec<&Vec<Contour>> = Vec::new();
        match self {
            Detection::Probing { contours, .. } => {
                lists.push(contours);
            },
            Detection::Resolving { red, green, blue, .. } => {
                lists.push(red);
                lists.push(green);
                lists.push(blue);
            },
            _ => {},
        }
        lists
    }

    /// Takes the reply to the last request and decides what comes next.
    pub fn handle(self, reply: Reply) -> (after: Detection)
        ensures
            follows(self, reply, after),
    {
        match self {
            Detection::Filtering { settings } => {
                if let Err(error) = settings.validate() {
                    return Detection::Failed(error);
                }
                match reply {
                    Reply::Filtered(filtered) => {
                        if filtered.width() == settings.width && filtered.height() == settings.height {
                            let cutoff = lower_cutoff(INITIAL_CUTOFF);
                            let contours = probe_contours(&filtered, cutoff);
                            Detection::Probing { settings, filtered, cutoff, contours }
                        } else {
                            Detection::Failed(Error::input("filtered", "the size differs from that of the source"))
                        }
                    },
                    Reply::Measured(_) => Detection::Failed(Error::input("reply", "the filtered image is awaited")),
                }
            },
            Detection::Probing { settings, filtered, cutoff, contours } => {
                if let Err(error) = settings.validate() {
                    return Detection::Failed(error);
                }
                match reply {
                    Reply::Measured(measures) => {
                        if measures.len() != 1 || measures[0].len() != contours.len() {
                            return Detection::Failed(
                                Error::input("measures", "one measure is needed for each contour"),
                            );
                        }
                        let stars = extract_stars(
                            &contours,
                            &measures[0],
                            settings.width,
                            settings.height,
                            settings.minimum_star_size,
                            settings.maximum_star_size,
                        );
                        match decide(cutoff, stars.len(), settings.minimum_star_count) {
                            SearchStep::Found(at) => {
                                let (red, green, blue) = channel_contours(filtered, at);
                                Detection::Resolving { settings, red, green, blue }
                            },
                            SearchStep::Probe(next) => {
                                let contours = probe_contours(&filtered, next);
                                Detection::Probing { settings, filtered, cutoff: next, contours }
                            },
                            SearchStep::Exhausted => Detection::Failed(Error::ConvergenceFailure),
                        }
                    },
                    Reply::Filtered(_) => Detection::Failed(Error::input("reply", "measures are awaited")),
                }
            },
            Detection::Resolving { settings, red, green, blue } => {
                if let Err(error) = settings.validate() {
                    return Detection::Failed(error);
                }
                match reply {
                    Reply::Measured(measures) => {
                        if measures.len() != 3 || measures[0].len() != red.len() || measures[1].len()
                            != green.len() || measures[2].len() != blue.len() {
                            return Detection::Failed(
                                Error::input("measures", "one measure is needed for each contour"),
                            );
                        }
                        let (width, height) = (settings.width, settings.height);
                        let (min_size, max_size) = (settings.minimum_star_size, settings.maximum_star_size);
                        let red_stars = extract_stars(&red, &measures[0], width, height, min_size, max_size);
                        let green_stars = extract_stars(&green, &measures[1], width, height, min_size, max_size);
                        let blue_stars = extract_stars(&blue, &measures[2], width, height, min_size, max_size);
                        let stars = find_rgb_stars(&red_stars, &green_stars, &blue_stars);
                        proof {
                            lemma_stars_fit(
                                outlines(red@),
                                measures[0]@,
                                width as nat,
                                height as nat,
                                min_size as nat,
                                max_size as nat,
                                red.len() as nat,
                            );
                            assert forall|i: int| 0 <= i < stars.len() implies sound_star(
                                settings,
                                #[trigger] stars[i],
                            ) by {
                                assert(red_stars@.contains(stars[i]));
                                let k = choose|k: int| 0 <= k < red_stars.len() && red_stars[k] == stars[i];
                                assert(sound_star(settings, red_stars[k]));
                            }
                        }
                        Detection::Finished(stars)
                    },
                    Reply::Filtered(_) => Detection::Failed(Error::input("reply", "measures are awaited")),
                }
            },
            Detection::Finished(stars) => Detection::Finished(stars),
            Detection::Failed(error) => Detection::Failed(error),
        }
    }
}

/// The number of borders that a detection in the search of the cutoff waits
/// to have measured, and zero in any other state.
pub open spec fn pending_borders(state: Detection) -> nat {
    match state {
        Detection::Probing { contours, .. } => contours.len() as nat,
        _ => 0,
    }
}

/// The most requests that a detection in the state `state` still makes.
pub open spec fn requests_left(state: Detection) -> nat {
    match state {
        Detection::Filtering { .. } => 258,
        Detection::Probing { cutoff, .. } => (cutoff + 2) as nat,
        Detection::Resolving { .. } => 1,
        Detection::Finished(_) => 0,
        Detection::Failed(_) => 0,
    }
}

/// A detection comes to its end: each reply to a request brings it nearer,
/// so it makes at most 258 requests and goes on for ever for no input.
pub proof fn lemma_detection_advances(before: Detection, reply: Reply, after: Detection)
    requires
        follows(before, reply, after),
        requests_left(before) > 0,
    ensures
        requests_left(after) < requests_left(before),
{
    crate::star_count::lemma_lowered_is_lower(INITIAL_CUTOFF);
    match before {
        Detection::Probing { cutoff, .. } => {
            crate::star_count::lemma_lowered_is_lower(cutoff);
        },
        _ => {},
    }
}

/// An image in which nothing is brighter than any cutoff, such as a black
/// one, fails to converge: while the cutoff is searched no probe finds a
/// border, so every cutoff but the last leads to the next one, and the last
/// one, zero, fails the detection. It is never settled for.
pub proof fn lemma_dark_image_fails_to_converge(before: Detection, reply: Reply, after: Detection)
    requires
        follows(before, reply, after),
        before matches Detection::Probing { settings, filtered, cutoff, contours } && probes(
            before,
            settings,
            filtered@,
            cutoff,
        ) && settings.flaw() == Flaw::Sound && forall|level: u8| dark_at(filtered@, level),
        reply matches Reply::Measured(measures) && measures.len() == 1 && measures[0].len() == 0,
    ensures
        before matches Detection::Probing { settings, filtered, cutoff, .. } && if cutoff == 0 {
            after == Detection::Failed(Error::ConvergenceFailure)
        } else {
            probes(after, settings, filtered@, lowered(cutoff)) && pending_borders(after) == 0
        },
{
}

} // verus!
