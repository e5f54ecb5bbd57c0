//! The blob extractor and the consensus of the colour channels: from the
//! contours of a frame to star centres, and from three lists of centres to
//! the stars that all of them hold.

use vstd::prelude::*;

use crate::buffer::{FrameView, GrayFrame};
use crate::error::Error;
use crate::single::{lies_within, truncate, truncated, within};

verus! {

/// A pixel position: column `x` of row `y`.
#[derive(Debug, Clone, Copy, PartialEq, Eq, Hash, Structural)]
pub struct Point {
    pub x: u32,
    pub y: u32,
}

/// The closed border of one 8-connected foreground region, point by point.
/// A border of a single point is that of a lone pixel.
#[derive(Debug, PartialEq, Eq)]
pub struct Contour {
    pub points: Vec<Point>,
}

impl View for Contour {
    type V = Seq<Point>;

    open spec fn view(&self) -> Seq<Point> {
        self.points@
    }
}

/// The point lists of `contours`, in their order.
pub open spec fn outlines(contours: Seq<Contour>) -> Seq<Seq<Point>> {
    Seq::new(contours.len(), |i: int| contours[i]@)
}

/// The borders that tracing finds in a frame, in the order in which it
/// finds them.
pub uninterp spec fn traced_contours(frame: FrameView) -> Seq<Seq<Point>>;

/// Calls `imageproc::contours::find_contours` on the frame, every non-zero
/// byte being foreground, and hands back the points of each border.
///
/// The result is the one named by [`traced_contours`]. Of it the contract
/// says what the tracer documents: no border is empty, and every point of a
/// border is a foreground pixel of the frame. The tracer numbers pixels and
/// borders with signed 32-bit numbers; a frame never holds more pixels than
/// these can count.
#[verifier::external_body]
fn find_borders(frame: &GrayFrame) -> (contours: Vec<Contour>)
    ensures
        outlines(contours@) == traced_contours(frame@),
        forall|i: int| 0 <= i < contours.len() ==> (#[trigger] contours[i])@.len() > 0,
        forall|i: int, j: int|
            0 <= i < contours.len() && 0 <= j < contours[i]@.len() ==> frame@.lit(
                (#[trigger] contours[i]@[j]).x as int,
                contours[i]@[j].y as int,
            ),
{
    let image = image::GrayImage::from_raw(frame.width(), frame.height(), frame.as_raw().clone()).unwrap();
    imageproc::contours::find_contours::<u32>(&image)
        .into_iter()
        .map(|border| Contour { points: border.points.into_iter().map(|p| Point { x: p.x, y: p.y }).collect() })
        .collect()
}

/// Traces the borders of the foreground regions of `frame`. A pixel is
/// foreground when its byte is not zero, and regions are 8-connected.
///
/// Every border has a point, every point of a border is a foreground pixel,
/// and so a frame without foreground has no border.
pub fn trace_contours(frame: &GrayFrame) -> (contours: Vec<Contour>)
    ensures
        outlines(contours@) == traced_contours(frame@),
        forall|i: int| 0 <= i < contours.len() ==> (#[trigger] contours[i])@.len() > 0,
        forall|i: int, j: int|
            0 <= i < contours.len() && 0 <= j < contours[i]@.len() ==> frame@.lit(
                (#[trigger] contours[i]@[j]).x as int,
                contours[i]@[j].y as int,
            ),
        frame@.dark() ==> contours.len() == 0,
{
    let contours = find_borders(frame);
    frame.validity();
    proof {
        if contours.len() > 0 {
            let point = contours[0]@[0];
            let (x, y) = (point.x as int, point.y as int);
            let (width, height) = (frame@.width as int, frame@.height as int);
            assert(frame@.lit(x, y));
            assert(0 <= y * width + x < width * height) by (nonlinear_arith)
                requires
                    0 <= x < width,
                    0 <= y < height,
            ;
            assert(frame@.data.len() == width * height);
            assert(frame@.data[y * width + x] != 0);
            assert(!frame@.dark());
        }
    }
    contours
}

/// A detected star: where it is and how large it appears. Two detections at
/// one coordinate are the same star whatever their radii; see
/// [`StarCenter::coord`].
#[derive(Debug, Clone, Copy, PartialEq, Eq, Structural)]
pub struct StarCenter {
    pub coord: Point,
    pub radius: u32,
}

impl StarCenter {
    /// The star at `coord` with the radius `radius`.
    pub fn new(coord: Point, radius: u32) -> (star: StarCenter)
        ensures
            star == (StarCenter { coord, radius }),
    {
        StarCenter { coord, radius }
    }

    /// The coordinate of the star, by which stars are told apart.
    pub fn coord(&self) -> (coord: &Point)
        ensures
            *coord == self.coord,
    {
        &self.coord
    }

    /// The radius of the star in whole pixels.
    pub fn radius(&self) -> (radius: u32)
        ensures
            radius == self.radius,
    {
        self.radius
    }
}

/// What was measured of a border of two or more points: the centroid of the
/// closed polygon through its points, and the largest distance from the
/// centroid to any of them. The three values are single-precision numbers,
/// held as their bit patterns.
#[derive(Debug, Clone, Copy, PartialEq, Eq, Structural)]
pub struct OutlineMeasure {
    /// The column of the centroid.
    pub center_x: u32,
    /// The row of the centroid.
    pub center_y: u32,
    /// The largest distance from the centroid to a point of the border.
    pub radius: u32,
}

/// The star that a border of a frame of `width` by `height` pixels gives
/// within the size band from `min` to `max`, both included.
///
/// An empty border gives none. A single point is a star of radius 1 at that
/// point, kept when 1 lies within the band. A longer border is kept when its
/// measured radius lies within the band and is still not below `min` once it
/// is cut to whole pixels, and is then a star at the measured centroid with
/// the measured radius, each cut to whole pixels. No star is kept that would
/// lie outside the frame.
pub open spec fn star_of(
    border: Seq<Point>,
    measure: OutlineMeasure,
    width: nat,
    height: nat,
    min: nat,
    max: nat,
) -> Option<StarCenter> {
    if border.len() == 0 {
        None
    } else if border.len() == 1 {
        if min <= 1 <= max && border[0].x < width && border[0].y < height {
            Some(StarCenter { coord: border[0], radius: 1 })
        } else {
            None
        }
    } else if lies_within(measure.radius, min, max) && min <= truncated(measure.radius) && truncated(
        measure.center_x,
    ) < width && truncated(measure.center_y) < height {
        Some(
            StarCenter {
                coord: Point { x: truncated(measure.center_x), y: truncated(measure.center_y) },
                radius: truncated(measure.radius),
            },
        )
    } else {
        None
    }
}

/// The stars of the first `count` borders, in the order of the borders.
pub open spec fn stars_of(
    borders: Seq<Seq<Point>>,
    measures: Seq<OutlineMeasure>,
    width: nat,
    height: nat,
    min: nat,
    max: nat,
    count: nat,
) -> Seq<StarCenter>
    decreases count,
{
    if count == 0 {
        Seq::empty()
    } else {
        let earlier = stars_of(borders, measures, width, height, min, max, (count - 1) as nat);
        match star_of(borders[count - 1], measures[count - 1], width, height, min, max) {
            Some(star) => earlier.push(star),
            None => earlier,
        }
    }
}

/// Whether `star` lies in a frame of `width` by `height` pixels and has a
/// radius from `min` to `max`.
pub open spec fn fits(star: StarCenter, width: nat, height: nat, min: nat, max: nat) -> bool {
    star.coord.x < width && star.coord.y < height && min <= star.radius <= max
}

/// Computes [`star_of`].
pub fn star_from_contour(
    contour: &Contour,
    measure: &OutlineMeasure,
    width: u32,
    height: u32,
    min_size: usize,
    max_size: usize,
) -> (star: Option<StarCenter>)
    ensures
        star == star_of(contour@, *measure, width as nat, height as nat, min_size as nat, max_size as nat),
        star matches Some(kept) ==> fits(kept, width as nat, height as nat, min_size as nat, max_size as nat),
{
    let length = contour.points.len();
    if length == 0 {
        None
    } else if length == 1 {
        let point = contour.points[0];
        if min_size <= 1 && 1 <= max_size && point.x < width && point.y < height {
            Some(StarCenter { coord: point, radius: 1 })
        } else {
            None
        }
    } else if within(measure.radius, min_size, max_size) {
        let coord = Point { x: truncate(measure.center_x), y: truncate(measure.center_y) };
        let radius = truncate(measure.radius);
        proof {
            lemma_star_fits(contour@, *measure, width as nat, height as nat, min_size as nat, max_size as nat);
        }
        if min_size <= radius as usize && coord.x < width && coord.y < height {
            Some(StarCenter { coord, radius })
        } else {
            None
        }
    } else {
        None
    }
}

/// The stars of `contours` for measures that are known to match them.
pub(crate) fn extract_stars(
    contours: &Vec<Contour>,
    measures: &Vec<OutlineMeasure>,
    width: u32,
    height: u32,
    min_size: usize,
    max_size: usize,
) -> (stars: Vec<StarCenter>)
    requires
        contours.len() == measures.len(),
    ensures
        stars@ == stars_of(
            outlines(contours@),
            measures@,
            width as nat,
            height as nat,
            min_size as nat,
            max_size as nat,
            contours.len() as nat,
        ),
{
    let mut stars: Vec<StarCenter> = Vec::new();
    let mut i: usize = 0;
    while i < contours.len()
        invariant
            i <= contours.len(),
            contours.len() == measures.len(),
            stars@ == stars_of(
                outlines(contours@),
                measures@,
                width as nat,
                height as nat,
                min_size as nat,
                max_size as nat,
                i as nat,
            ),
        decreases contours.len() - i,
    {
        match star_from_contour(&contours[i], &measures[i], width, height, min_size, max_size) {
            Some(star) => stars.push(star),
            None => {},
        }
        i += 1;
    }
    stars
}

/// The stars of `contours`, traced in a frame of `width` by `height` pixels,
/// each border with the measure at its place in `measures`, within the size
/// band from `min_size` to `max_size`. The stars come in the order of their
/// borders, and two borders with one centroid give two stars. Every star lies
/// inside the frame and has its radius within the band.
///
/// A list of measures of another length than the list of borders is refused
/// as an input error.
pub fn find_star_centres_and_size(
    contours: &Vec<Contour>,
    measures: &Vec<OutlineMeasure>,
    width: u32,
    height: u32,
    min_size: usize,
    max_size: usize,
) -> (found: Result<Vec<StarCenter>, Error>)
    ensures
        found is Ok <==> contours.len() == measures.len(),
        found matches Ok(stars) ==> stars@ == stars_of(
            outlines(contours@),
            measures@,
            width as nat,
            height as nat,
            min_size as nat,
            max_size as nat,
            contours.len() as nat,
        ) && forall|i: int|
            0 <= i < stars.len() ==> fits(
                #[trigger] stars[i],
                width as nat,
                height as nat,
                min_size as nat,
                max_size as nat,
            ),
        found matches Err(error) ==> error.is_input_error("measures"@),
{
    if contours.len() == measures.len() {
        proof {
            lemma_stars_fit(
                outlines(contours@),
                measures@,
                width as nat,
                height as nat,
                min_size as nat,
                max_size as nat,
                contours.len() as nat,
            );
        }
        Ok(extract_stars(contours, measures, width, height, min_size, max_size))
    } else {
        Err(Error::input("measures", "one measure is needed for each contour"))
    }
}

/// A star that is kept lies inside the frame and has its radius within the
/// band.
pub proof fn lemma_star_fits(
    border: Seq<Point>,
    measure: OutlineMeasure,
    width: nat,
    height: nat,
    min: nat,
    max: nat,
)
    ensures
        star_of(border, measure, width, height, min, max) matches Some(star) ==> fits(
            star,
            width,
            height,
            min,
            max,
        ),
        lies_within(measure.radius, min, max) ==> truncated(measure.radius) <= max,
{
}

/// Extraction gives at most one star for each border, and every star that
/// it keeps lies inside the frame and has its radius within the band.
pub proof fn lemma_stars_fit(
    borders: Seq<Seq<Point>>,
    measures: Seq<OutlineMeasure>,
    width: nat,
    height: nat,
    min: nat,
    max: nat,
    count: nat,
)
    ensures
        stars_of(borders, measures, width, height, min, max, count).len() <= count,
        forall|i: int|
            0 <= i < stars_of(borders, measures, width, height, min, max, count).len() ==> fits(
                #[trigger] stars_of(borders, measures, width, height, min, max, count)[i],
                width,
                height,
                min,
                max,
            ),
    decreases count,
{
    if count > 0 {
        lemma_stars_fit(borders, measures, width, height, min, max, (count - 1) as nat);
        lemma_star_fits(borders[count - 1], measures[count - 1], width, height, min, max);
    }
}

/// Whether one of the first `count` stars of `stars` lies at `coord`.
pub open spec fn has_coord_before(stars: Seq<StarCenter>, count: int, coord: Point) -> bool {
    exists|i: int| 0 <= i < count && i < stars.len() && (#[trigger] stars[i]).coord == coord
}

/// Whether one of the stars of `stars` lies at `coord`.
pub open spec fn has_coord(stars: Seq<StarCenter>, coord: Point) -> bool {
    has_coord_before(stars, stars.len() as int, coord)
}

/// Whether no two stars of `stars` share a coordinate.
pub open spec fn distinct_coords(stars: Seq<StarCenter>) -> bool {
    forall|i: int, j: int|
        0 <= i < j < stars.len() ==> (#[trigger] stars[i]).coord != (#[trigger] stars[j]).coord
}

/// Whether the red star at `index` stands in the consensus: it is the first
/// red star at its coordinate, and green and blue each hold a star there.
pub open spec fn agreed(
    red: Seq<StarCenter>,
    green: Seq<StarCenter>,
    blue: Seq<StarCenter>,
    index: int,
) -> bool {
    &&& !has_coord_before(red, index, red[index].coord)
    &&& has_coord(green, red[index].coord)
    &&& has_coord(blue, red[index].coord)
}

/// Whether `star` is one of the first `count` red stars and [`agreed`].
pub open spec fn agreed_among(
    red: Seq<StarCenter>,
    green: Seq<StarCenter>,
    blue: Seq<StarCenter>,
    count: int,
    star: StarCenter,
) -> bool {
    exists|i: int| 0 <= i < count && i < red.len() && #[trigger] agreed(red, green, blue, i) && red[i] == star
}

/// The consensus among the first `count` red stars: those that are
/// [`agreed`], in the order of the red list.
pub open spec fn consensus_of(
    red: Seq<StarCenter>,
    green: Seq<StarCenter>,
    blue: Seq<StarCenter>,
    count: nat,
) -> Seq<StarCenter>
    decreases count,
{
    if count == 0 {
        Seq::empty()
    } else {
        let earlier = consensus_of(red, green, blue, (count - 1) as nat);
        if agreed(red, green, blue, count - 1) {
            earlier.push(red[count - 1])
        } else {
            earlier
        }
    }
}

/// The stars on which the three channels agree.
pub open spec fn consensus(red: Seq<StarCenter>, green: Seq<StarCenter>, blue: Seq<StarCenter>) -> Seq<
    StarCenter,
> {
    consensus_of(red, green, blue, red.len())
}

/// Whether one of the first `count` stars of `stars` lies at `coord`.
pub fn contains_coord(stars: &Vec<StarCenter>, count: usize, coord: Point) -> (found: bool)
    ensures
        found == has_coord_before(stars@, count as int, coord),
{
    let mut i: usize = 0;
    while i < count && i < stars.len()
        invariant
            forall|j: int| 0 <= j < i && j < stars.len() ==> (#[trigger] stars[j]).coord != coord,
        decreases stars.len() - i,
    {
        if stars[i].coord.x == coord.x && stars[i].coord.y == coord.y {
            return true;
        }
        i += 1;
    }
    false
}

/// The stars that were found on all three colour channels.
///
/// Stars are told apart by their coordinate alone. A coordinate stands in
/// the result once when each of the three lists holds a star there, and not at
/// all otherwise. The star that stands for it is the first one at that
/// coordinate in `red`, with the radius it has there, and the result keeps
/// the order of `red`.
pub fn find_rgb_stars(red: &Vec<StarCenter>, green: &Vec<StarCenter>, blue: &Vec<StarCenter>) -> (stars: Vec<
    StarCenter,
>)
    ensures
        stars@ == consensus(red@, green@, blue@),
        distinct_coords(stars@),
        forall|k: int| 0 <= k < stars.len() ==> red@.contains(#[trigger] stars[k]),
        forall|coord: Point|
            has_coord(stars@, coord) <==> has_coord(red@, coord) && has_coord(green@, coord) && has_coord(
                blue@,
                coord,
            ),
{
    let mut stars: Vec<StarCenter> = Vec::new();
    let mut i: usize = 0;
    while i < red.len()
        invariant
            i <= red.len(),
            stars@ == consensus_of(red@, green@, blue@, i as nat),
        decreases red.len() - i,
    {
        let star = red[i];
        if !contains_coord(red, i, star.coord) && contains_coord(green, green.len(), star.coord)
            && contains_coord(blue, blue.len(), star.coord) {
            stars.push(star);
        }
        i += 1;
    }
    proof {
        lemma_consensus_is_intersection(red@, green@, blue@, red@.len());
        assert forall|k: int| 0 <= k < stars.len() implies red@.contains(#[trigger] stars[k]) by {
            assert(agreed_among(red@, green@, blue@, red@.len() as int, stars[k]));
            let i = choose|i: int|
                0 <= i < red@.len() && i < red@.len() && #[trigger] agreed(red@, green@, blue@, i) && red@[i]
                    == stars[k];
            assert(red@[i] == stars[k]);
        }
        assert forall|coord: Point|
            has_coord(stars@, coord) <==> has_coord(red@, coord) && has_coord(green@, coord) && has_coord(
                blue@,
                coord,
            ) by {
            assert(has_coord(red@, coord) == has_coord_before(red@, red@.len() as int, coord));
        }
    }
    stars
}

/// The stars of `stars` without those whose coordinate occurred before: a
/// set of stars told apart by their coordinate, in the order of their first
/// occurrence.
pub fn deduplicate(stars: &Vec<StarCenter>) -> (set: Vec<StarCenter>)
    ensures
        set@ == consensus(stars@, stars@, stars@),
        distinct_coords(set@),
        forall|coord: Point| has_coord(set@, coord) <==> has_coord(stars@, coord),
{
    find_rgb_stars(stars, stars, stars)
}

/// What the consensus among the first `count` red stars holds: each of its
/// stars is the first red star at its coordinate, no coordinate stands twice,
/// and a coordinate stands in it exactly when one of those red stars, a
/// green star and a blue star lie there.
pub proof fn lemma_consensus_is_intersection(
    red: Seq<StarCenter>,
    green: Seq<StarCenter>,
    blue: Seq<StarCenter>,
    count: nat,
)
    requires
        count <= red.len(),
    ensures
        distinct_coords(consensus_of(red, green, blue, count)),
        forall|k: int|
            0 <= k < consensus_of(red, green, blue, count).len() ==> agreed_among(
                red,
                green,
                blue,
                count as int,
                #[trigger] consensus_of(red, green, blue, count)[k],
            ),
        forall|coord: Point|
            has_coord(consensus_of(red, green, blue, count), coord) <==> has_coord_before(
                red,
                count as int,
                coord,
            ) && has_coord(green, coord) && has_coord(blue, coord),
    decreases count,
{
    let now = consensus_of(red, green, blue, count);
    if count > 0 {
        let last = count - 1;
        let earlier = consensus_of(red, green, blue, last as nat);
        lemma_consensus_is_intersection(red, green, blue, last as nat);
        let star = red[last];
        assert forall|k: int| 0 <= k < now.len() implies agreed_among(
            red,
            green,
            blue,
            count as int,
            #[trigger] now[k],
        ) by {
            if k < earlier.len() {
                assert(now[k] == earlier[k]);
                assert(agreed_among(red, green, blue, last as int, earlier[k]));
                let i = choose|i: int|
                    0 <= i < last && i < red.len() && #[trigger] agreed(red, green, blue, i) && red[i]
                        == earlier[k];
                assert(agreed(red, green, blue, i) && red[i] == now[k]);
            } else {
                assert(agreed(red, green, blue, last as int) && red[last as int] == now[k]);
            }
        }
        assert forall|coord: Point|
            has_coord(now, coord) <==> has_coord_before(red, count as int, coord) && has_coord(green, coord)
                && has_coord(blue, coord) by {
            let wanted = has_coord_before(red, count as int, coord) && has_coord(green, coord) && has_coord(
                blue,
                coord,
            );
            if has_coord(now, coord) {
                let k = choose|k: int| 0 <= k < now.len() && (#[trigger] now[k]).coord == coord;
                assert(agreed_among(red, green, blue, count as int, now[k]));
                let i = choose|i: int|
                    0 <= i < count && i < red.len() && #[trigger] agreed(red, green, blue, i) && red[i]
                        == now[k];
                assert(red[i].coord == coord);
                assert(wanted);
            }
            if wanted {
                if has_coord_before(red, last as int, coord) {
                    assert(has_coord(earlier, coord));
                    let k = choose|k: int| 0 <= k < earlier.len() && (#[trigger] earlier[k]).coord == coord;
                    assert(now[k].coord == coord);
                    assert(has_coord(now, coord));
                } else {
                    let i = choose|i: int| 0 <= i < count && i < red.len() && (#[trigger] red[i]).coord == coord;
                    assert(i == last);
                    assert(agreed(red, green, blue, last));
                    assert(now[now.len() - 1].coord == coord);
                    assert(has_coord(now, coord));
                }
            }
        }
        assert forall|a: int, b: int| 0 <= a < b < now.len() implies (#[trigger] now[a]).coord != (
        #[trigger] now[b]).coord by {
            if b == earlier.len() {
                assert(agreed(red, green, blue, last));
                if now[a].coord == star.coord {
                    assert(earlier[a].coord == star.coord);
                    assert(has_coord(earlier, star.coord));
                    assert(has_coord_before(red, last as int, star.coord));
                }
            }
        }
    }
}

/// Of two stars at one coordinate with different radii the consensus keeps
/// one: the first of them in the red list, with its radius.
pub proof fn lemma_consensus_keeps_first_red(
    red: Seq<StarCenter>,
    green: Seq<StarCenter>,
    blue: Seq<StarCenter>,
    k: int,
)
    requires
        0 <= k < consensus(red, green, blue).len(),
    ensures
        exists|i: int|
            0 <= i < red.len() && red[i] == consensus(red, green, blue)[k] && !has_coord_before(
                red,
                i,
                #[trigger] red[i].coord,
            ),
        forall|other: int|
            0 <= other < consensus(red, green, blue).len() && other != k ==> (#[trigger] consensus(
                red,
                green,
                blue,
            )[other]).coord != consensus(red, green, blue)[k].coord,
{
    lemma_consensus_is_intersection(red, green, blue, red.len());
    let all = consensus(red, green, blue);
    assert(agreed_among(red, green, blue, red.len() as int, all[k]));
    let i = choose|i: int|
        0 <= i < red.len() && i < red.len() && #[trigger] agreed(red, green, blue, i) && red[i] == all[k];
    assert(!has_coord_before(red, i, red[i].coord));
    assert forall|other: int| 0 <= other < all.len() && other != k implies (#[trigger] all[other]).coord
        != all[k].coord by {
        if other < k {
            assert(all[other].coord != all[k].coord);
        } else {
            assert(all[k].coord != all[other].coord);
        }
    }
}

} // verus!
