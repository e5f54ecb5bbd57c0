//! The quad hasher: for every star its three nearest neighbours, and from
//! the six distances among the four a signature that does not change with
//! the scale of the image.
//!
//! The neighbours come from a spatial index of the `acap` crate that is
//! built once for all the stars: an exhaustive search over points with whole
//! coordinates, whose squared distances are whole numbers and exact.

use vstd::prelude::*;

use acap::knn::NearestNeighbors;

use crate::centroid::Point;
use crate::error::Error;

verus! {

/// The largest coordinate that the hasher takes. Up to here the squared
/// distance of two points fits a signed 64-bit number, in which the index
/// computes it.
pub const MAX_COORDINATE: u32 = 0x7FFF_FFFF;

/// The fewest points of which each has three neighbours.
pub const MIN_POINTS: usize = 4;

/// The square of the distance between two points.
pub open spec fn squared_distance(a: Point, b: Point) -> nat {
    ((a.x - b.x) * (a.x - b.x) + (a.y - b.y) * (a.y - b.y)) as nat
}

/// Whether both coordinates of `point` are at most [`MAX_COORDINATE`].
pub open spec fn in_range(point: Point) -> bool {
    point.x <= MAX_COORDINATE && point.y <= MAX_COORDINATE
}

/// Whether every point of `points` is [`in_range`].
pub open spec fn all_in_range(points: Seq<Point>) -> bool {
    forall|i: int| 0 <= i < points.len() ==> in_range(#[trigger] points[i])
}

/// Whether no point occurs twice in `points`.
pub open spec fn all_distinct(points: Seq<Point>) -> bool {
    forall|i: int, j: int| 0 <= i < j < points.len() ==> #[trigger] points[i] != #[trigger] points[j]
}

/// A neighbour of a star: where it lies and the square of its distance
/// from the star.
#[derive(Debug, Clone, Copy, PartialEq, Eq, Structural)]
pub struct StarQuadEntry {
    pub x: u32,
    pub y: u32,
    pub distance: u64,
}

impl StarQuadEntry {
    /// The position of the neighbour.
    pub open spec fn point(self) -> Point {
        Point { x: self.x, y: self.y }
    }
}

/// `acap::euclid::Euclidean`: a point under the Euclidean distance.
#[verifier::external_type_specification]
#[verifier::external_body]
#[verifier::reject_recursive_types(T)]
pub struct ExEuclidean<T>(acap::euclid::Euclidean<T>);

/// `acap::exhaustive::ExhaustiveSearch`: the index that answers a search by
/// looking at every point it holds.
#[verifier::external_type_specification]
#[verifier::external_body]
#[verifier::reject_recursive_types(T)]
pub struct ExExhaustiveSearch<T>(acap::exhaustive::ExhaustiveSearch<T>);

/// The points that an index holds, in the order in which it was given them.
pub uninterp spec fn indexed_points(
    index: acap::exhaustive::ExhaustiveSearch<acap::euclid::Euclidean<[i64; 2]>>,
) -> Seq<Point>;

/// What a search of an index for the `count` points nearest to `target`
/// lists, the index holding `contents`.
pub uninterp spec fn listed_nearest(contents: Seq<Point>, target: Point, count: nat) -> Seq<StarQuadEntry>;

/// Whether `nearest` lists the `count` points of `contents` that lie nearest
/// to `target`, the point at `positions[i]` being the one listed at `i`.
///
/// The list holds `count` entries, or all the points when they are fewer. No
/// position is listed twice. Each entry carries its point's squared distance
/// from the target, the entries come from nearest to farthest, and no point
/// that was left out lies nearer than one that was taken. Which of several
/// points at one distance is taken, and in what order, is left open.
pub open spec fn lists_nearest(
    contents: Seq<Point>,
    target: Point,
    count: nat,
    nearest: Seq<StarQuadEntry>,
    positions: Seq<int>,
) -> bool {
    &&& nearest.len() == if count <= contents.len() {
        count
    } else {
        contents.len()
    }
    &&& positions.len() == nearest.len()
    &&& forall|i: int|
        0 <= i < nearest.len() ==> 0 <= #[trigger] positions[i] < contents.len() && contents[positions[i]]
            == nearest[i].point()
    &&& forall|i: int, j: int|
        0 <= i < j < nearest.len() ==> #[trigger] positions[i] != #[trigger] positions[j]
    &&& forall|i: int|
        0 <= i < nearest.len() ==> (#[trigger] nearest[i]).distance == squared_distance(
            target,
            nearest[i].point(),
        )
    &&& forall|i: int, j: int|
        0 <= i <= j < nearest.len() ==> (#[trigger] nearest[i]).distance <= (#[trigger] nearest[j]).distance
    &&& forall|p: int, i: int|
        0 <= p < contents.len() && !positions.contains(p) && 0 <= i < nearest.len() ==> (
        #[trigger] nearest[i]).distance <= squared_distance(target, #[trigger] contents[p])
}

/// Calls `from_iter` of `acap::exhaustive::ExhaustiveSearch` on the points,
/// each as a pair of signed 64-bit coordinates. The index holds the points it
/// was given, in their order.
#[verifier::external_body]
fn build_index(points: &Vec<Point>) -> (index: acap::exhaustive::ExhaustiveSearch<
    acap::euclid::Euclidean<[i64; 2]>,
>)
    ensures
        indexed_points(index) == points@,
{
    points.iter().map(|p| acap::euclid::Euclidean([p.x as i64, p.y as i64])).collect()
}

/// Calls `k_nearest` of `acap::knn::NearestNeighbors` on the index.
///
/// The search considers every point of the index once and keeps the `count`
/// nearest. Its result is the one named by [`listed_nearest`], and of it the
/// contract says what [`lists_nearest`] says, of some choice of positions.
/// The coordinates are bounded because the index squares their differences
/// in signed 64-bit numbers, and the count because the search reserves room
/// for as many results; the library asks for four.
#[verifier::external_body]
fn nearest_in_index(
    index: &acap::exhaustive::ExhaustiveSearch<acap::euclid::Euclidean<[i64; 2]>>,
    target: Point,
    count: usize,
) -> (nearest: Vec<StarQuadEntry>)
    requires
        count <= 4,
        in_range(target),
        all_in_range(indexed_points(*index)),
    ensures
        nearest@ == listed_nearest(indexed_points(*index), target, count as nat),
        exists|positions: Seq<int>| #[trigger]
            lists_nearest(indexed_points(*index), target, count as nat, nearest@, positions),
{
    index.k_nearest(&acap::euclid::Euclidean([target.x as i64, target.y as i64]), count)
        .into_iter()
        .map(|n| StarQuadEntry { x: n.item.0[0] as u32, y: n.item.0[1] as u32, distance: n.distance.squared_value() as u64 })
        .collect()
}

/// The three entries of `listed` that come first when the one at `anchor`,
/// if there is one among the first three, is passed over.
pub open spec fn closest_three(listed: Seq<StarQuadEntry>, anchor: Point) -> Seq<StarQuadEntry> {
    if listed[0].point() == anchor {
        seq![listed[1], listed[2], listed[3]]
    } else if listed[1].point() == anchor {
        seq![listed[0], listed[2], listed[3]]
    } else if listed[2].point() == anchor {
        seq![listed[0], listed[1], listed[3]]
    } else {
        seq![listed[0], listed[1], listed[2]]
    }
}

/// Whether `closest` holds the three points of `points` nearest to `anchor`,
/// `anchor` itself left out: three different points other than the anchor,
/// each with its squared distance, from nearest to farthest, and every other
/// point at least as far as the third.
pub open spec fn nearest_three(points: Seq<Point>, anchor: Point, closest: Seq<StarQuadEntry>) -> bool {
    &&& closest.len() == 3
    &&& forall|k: int|
        0 <= k < 3 ==> points.contains((#[trigger] closest[k]).point()) && closest[k].point() != anchor
            && closest[k].distance == squared_distance(anchor, closest[k].point())
    &&& closest[0].distance <= closest[1].distance <= closest[2].distance
    &&& closest[0].point() != closest[1].point()
    &&& closest[0].point() != closest[2].point()
    &&& closest[1].point() != closest[2].point()
    &&& forall|p: int|
        0 <= p < points.len() && #[trigger] points[p] != anchor && points[p] != closest[0].point()
            && points[p] != closest[1].point() && points[p] != closest[2].point() ==> closest[2].distance
            <= squared_distance(anchor, points[p])
}

/// What a [`StarQuad`] holds.
pub struct QuadView {
    /// The star that the quad describes.
    pub anchor: Point,
    /// Its three neighbours, from nearest to farthest.
    pub closest: Seq<StarQuadEntry>,
}

impl QuadView {
    /// Three neighbours, all coordinates at most [`MAX_COORDINATE`], and
    /// with each neighbour its squared distance from the anchor.
    pub open spec fn wf(self) -> bool {
        &&& self.closest.len() == 3
        &&& in_range(self.anchor)
        &&& forall|k: int|
            0 <= k < 3 ==> in_range((#[trigger] self.closest[k]).point()) && self.closest[k].distance
                == squared_distance(self.anchor, self.closest[k].point())
    }

    /// The six squared distances among the four points: from the anchor to
    /// each neighbour, then between the first and second neighbour, the
    /// first and third, the second and third.
    pub open spec fn codes(self) -> Seq<nat> {
        seq![
            self.closest[0].distance as nat,
            self.closest[1].distance as nat,
            self.closest[2].distance as nat,
            squared_distance(self.closest[0].point(), self.closest[1].point()),
            squared_distance(self.closest[0].point(), self.closest[2].point()),
            squared_distance(self.closest[1].point(), self.closest[2].point()),
        ]
    }

    /// The largest of the six squared distances.
    pub open spec fn scale(self) -> nat {
        larger(
            self.codes()[0],
            larger(
                self.codes()[1],
                larger(self.codes()[2], larger(self.codes()[3], larger(self.codes()[4], self.codes()[5]))),
            ),
        )
    }

    /// The quad with every coordinate multiplied by `factor`.
    pub open spec fn scaled(self, factor: nat) -> QuadView {
        QuadView {
            anchor: scaled_point(self.anchor, factor),
            closest: Seq::new(3, |k: int| scaled_entry(self.closest[k], factor)),
        }
    }
}

/// The larger of two numbers.
pub open spec fn larger(a: nat, b: nat) -> nat {
    if a >= b {
        a
    } else {
        b
    }
}

/// The quad that the index gives the star at `at` of `points`: the star and,
/// of what the index lists as the four nearest to it, the three that are left
/// when the star itself is passed over.
pub open spec fn quad_of(points: Seq<Point>, at: int) -> QuadView {
    QuadView { anchor: points[at], closest: closest_three(listed_nearest(points, points[at], 4), points[at]) }
}

/// The point with both coordinates multiplied by `factor`.
pub open spec fn scaled_point(point: Point, factor: nat) -> Point {
    Point { x: (point.x * factor) as u32, y: (point.y * factor) as u32 }
}

/// The neighbour with both coordinates multiplied by `factor`, and its
/// squared distance accordingly.
pub open spec fn scaled_entry(entry: StarQuadEntry, factor: nat) -> StarQuadEntry {
    StarQuadEntry {
        x: (entry.x * factor) as u32,
        y: (entry.y * factor) as u32,
        distance: (entry.distance * factor * factor) as u64,
    }
}

/// The signature of a quad, kept in whole numbers so that it stays exact.
///
/// Feature `i` of the signature is the distance `i` divided by the largest
/// of the six distances, a value from zero to one. The signature holds the
/// squares: `codes[i]` is the square of distance `i` and `scale` the square of
/// the largest, so feature `i` is the square root of `codes[i] / scale`.
#[derive(Debug, Clone, Copy, PartialEq, Eq)]
pub struct QuadHash {
    /// The squares of the six distances.
    pub codes: [u64; 6],
    /// The square of the largest distance.
    pub scale: u64,
}

impl QuadHash {
    /// Whether the fraction `numerator / denominator` is feature `index`:
    /// distance `index` over the largest distance, the fraction whose square
    /// is `codes[index] / scale`.
    pub open spec fn has_feature(self, index: int, numerator: nat, denominator: nat) -> bool {
        &&& 0 <= index < 6
        &&& denominator > 0
        &&& self.scale > 0
        &&& numerator * numerator * self.scale == self.codes@[index] * denominator * denominator
    }

    /// Whether `part / steps` is feature `index` rounded down to a whole
    /// number of steps: the feature is at least `part / steps` and less than
    /// `(part + 1) / steps`.
    pub open spec fn feature_rounds_down_to(self, index: int, steps: nat, part: nat) -> bool {
        &&& 0 <= index < 6
        &&& part * part * self.scale <= self.codes@[index] * steps * steps
        &&& self.codes@[index] * steps * steps < (part + 1) * (part + 1) * self.scale
    }

    /// A feature that is a whole number of steps is what rounding down
    /// gives.
    pub proof fn lemma_exact_feature_rounds_to_itself(self, index: int, numerator: nat, denominator: nat)
        requires
            self.has_feature(index, numerator, denominator),
        ensures
            self.feature_rounds_down_to(index, denominator, numerator),
    {
        let scale = self.scale as int;
        let square = numerator * numerator;
        assert((numerator + 1) * (numerator + 1) * scale > square * scale) by (nonlinear_arith)
            requires
                scale > 0,
                square == numerator * numerator,
                numerator >= 0,
        ;
    }

    /// Feature `index` in steps of `1 / steps`, rounded down: distance
    /// `index` over the largest distance. There is none for an index beyond
    /// the six features, and none where the signature does not hold a largest
    /// distance above zero that no other exceeds.
    pub fn feature(&self, index: usize, steps: u32) -> (part: Option<u32>)
        ensures
            part is Some <==> index < 6 && self.scale > 0 && self.codes@[index as int] <= self.scale,
            part matches Some(found) ==> found <= steps && self.feature_rounds_down_to(
                index as int,
                steps as nat,
                found as nat,
            ),
    {
        if index >= 6 || self.scale == 0 || self.codes[index] > self.scale {
            return None;
        }
        let code = self.codes[index] as u128;
        let scale = self.scale as u128;
        let wide = steps as u128;
        assert(wide * wide <= 0xFFFF_FFFF * 0xFFFF_FFFF) by (nonlinear_arith)
            requires
                0 <= wide <= 0xFFFF_FFFF,
        ;
        assert(code * (wide * wide) <= 0xFFFF_FFFF_FFFF_FFFF * (0xFFFF_FFFF * 0xFFFF_FFFF)) by (nonlinear_arith)
            requires
                0 <= code <= 0xFFFF_FFFF_FFFF_FFFF,
                0 <= wide * wide <= 0xFFFF_FFFF * 0xFFFF_FFFF,
        ;
        let target: u128 = code * (wide * wide);
        assert(target == self.codes@[index as int] * steps * steps) by (nonlinear_arith)
            requires
                target == code * (wide * wide),
                code == self.codes@[index as int],
                wide == steps,
        ;
        assert(wide * wide * scale >= target) by (nonlinear_arith)
            requires
                target == code * (wide * wide),
                0 <= code <= scale,
                wide >= 0,
        ;
        assert((wide + 1) * (wide + 1) * scale > wide * wide * scale) by (nonlinear_arith)
            requires
                scale > 0,
                wide >= 0,
        ;
        let mut low: u32 = 0;
        let mut high: u32 = steps;
        assert(low * low * scale == 0) by (nonlinear_arith)
            requires
                low == 0,
        ;
        while low < high
            invariant
                low <= high <= steps,
                0 < scale <= 0xFFFF_FFFF_FFFF_FFFF,
                low * low * scale <= target,
                target < (high + 1) * (high + 1) * scale,
            decreases high - low,
        {
            let middle: u32 = low + (high - low - 1) / 2 + 1;
            assert(middle * middle <= 0xFFFF_FFFF * 0xFFFF_FFFF) by (nonlinear_arith)
                requires
                    0 <= middle <= 0xFFFF_FFFF,
            ;
            let square: u128 = (middle as u128) * (middle as u128);
            assert(square * scale <= 0xFFFF_FFFF * 0xFFFF_FFFF * 0xFFFF_FFFF_FFFF_FFFF) by (nonlinear_arith)
                requires
                    0 <= square <= 0xFFFF_FFFF * 0xFFFF_FFFF,
                    0 <= scale <= 0xFFFF_FFFF_FFFF_FFFF,
            ;
            if square * scale <= target {
                low = middle;
            } else {
                high = middle - 1;
            }
        }
        Some(low)
    }
}

/// A star with its three nearest neighbours.
#[derive(Debug, Clone, Copy, PartialEq, Eq)]
pub struct StarQuad {
    x: u32,
    y: u32,
    closest_points: [StarQuadEntry; 3],
}

impl View for StarQuad {
    type V = QuadView;

    closed spec fn view(&self) -> QuadView {
        QuadView { anchor: Point { x: self.x, y: self.y }, closest: self.closest_points@ }
    }
}

/// Computes [`squared_distance`].
pub fn squared_distance_between(a: Point, b: Point) -> (squared: u64)
    requires
        in_range(a),
        in_range(b),
    ensures
        squared == squared_distance(a, b),
        squared <= 0x7FFF_FFFF_0000_0002,
{
    let dx: i64 = a.x as i64 - b.x as i64;
    let dy: i64 = a.y as i64 - b.y as i64;
    assert(0 <= dx * dx <= 0x3FFF_FFFF_0000_0001) by (nonlinear_arith)
        requires
            -0x7FFF_FFFF <= dx <= 0x7FFF_FFFF,
    ;
    assert(0 <= dy * dy <= 0x3FFF_FFFF_0000_0001) by (nonlinear_arith)
        requires
            -0x7FFF_FFFF <= dy <= 0x7FFF_FFFF,
    ;
    (dx * dx + dy * dy) as u64
}

impl StarQuad {
    #[verifier::type_invariant]
    spec fn well_formed(&self) -> bool {
        self@.wf()
    }

    /// States what every quad satisfies.
    pub fn validity(&self)
        ensures
            self@.wf(),
    {
        proof {
            use_type_invariant(self);
        }
    }

    /// The column of the star.
    pub fn x(&self) -> (x: u32)
        ensures
            x == self@.anchor.x,
    {
        self.x
    }

    /// The row of the star.
    pub fn y(&self) -> (y: u32)
        ensures
            y == self@.anchor.y,
    {
        self.y
    }

    /// The three neighbours of the star, from nearest to farthest.
    pub fn closest_points(&self) -> (closest: [StarQuadEntry; 3])
        ensures
            closest@ == self@.closest,
    {
        self.closest_points
    }

    /// The signature of the quad.
    ///
    /// Its six features are the distances from the star to each of its
    /// neighbours and between each two of the neighbours, each over the
    /// largest of the six. The signature holds their squares, in the order of
    /// [`QuadView::codes`]: feature `i` is the square root of
    /// `codes[i] / scale`, and [`QuadHash::feature`] gives it in steps. The
    /// features come in the order of the neighbours and are not sorted.
    pub fn generate_normalized_hashes(&self) -> (hash: QuadHash)
        ensures
            hash.codes@.len() == 6,
            forall|i: int| 0 <= i < 6 ==> (#[trigger] hash.codes@[i]) as nat == self@.codes()[i],
            hash.scale == self@.scale(),
            forall|i: int| 0 <= i < 6 ==> (#[trigger] hash.codes@[i]) <= hash.scale,
            exists|i: int| 0 <= i < 6 && (#[trigger] hash.codes@[i]) == hash.scale,
    {
        proof {
            use_type_invariant(self);
        }
        let first = self.closest_points[0];
        let second = self.closest_points[1];
        let third = self.closest_points[2];
        let a = Point { x: first.x, y: first.y };
        let b = Point { x: second.x, y: second.y };
        let c = Point { x: third.x, y: third.y };
        assert(in_range(first.point()) && in_range(second.point()) && in_range(third.point()));
        let codes: [u64; 6] = [
            first.distance,
            second.distance,
            third.distance,
            squared_distance_between(a, b),
            squared_distance_between(a, c),
            squared_distance_between(b, c),
        ];
        let mut scale: u64 = 0;
        let mut i: usize = 0;
        while i < 6
            invariant
                i <= 6,
                codes@.len() == 6,
                forall|j: int| 0 <= j < i ==> (#[trigger] codes@[j]) <= scale,
                i == 0 ==> scale == 0,
                i > 0 ==> exists|j: int| 0 <= j < i && (#[trigger] codes@[j]) == scale,
            decreases 6 - i,
        {
            if codes[i] > scale || i == 0 {
                scale = codes[i];
            }
            i += 1;
        }
        let ghost largest = choose|j: int| 0 <= j < 6 && (#[trigger] codes@[j]) == scale;
        let hash = QuadHash { codes, scale };
        assert(hash.codes@[largest] == hash.scale);
        hash
    }
}

/// The quads of a set of stars, one for each star, in the order of the stars.
#[derive(Debug)]
pub struct StarQuads(pub Vec<StarQuad>);

/// The first position at which `points` holds a point that is out of range
/// or that occurred before, if there is one.
fn first_unfit(points: &Vec<Point>) -> (found: Option<usize>)
    ensures
        found is None <==> all_in_range(points@) && all_distinct(points@),
{
    let mut i: usize = 0;
    while i < points.len()
        invariant
            i <= points.len(),
            all_in_range(points@.take(i as int)),
            all_distinct(points@.take(i as int)),
        decreases points.len() - i,
    {
        let point = points[i];
        if point.x > MAX_COORDINATE || point.y > MAX_COORDINATE {
            assert(!in_range(points@[i as int]));
            return Some(i);
        }
        let mut j: usize = 0;
        while j < i
            invariant
                j <= i < points.len(),
                point == points[i as int],
                forall|k: int| 0 <= k < j ==> #[trigger] points[k] != point,
            decreases i - j,
        {
            if points[j].x == point.x && points[j].y == point.y {
                assert(points@[j as int] == points@[i as int]);
                return Some(i);
            }
            j += 1;
        }
        assert forall|a: int, b: int| 0 <= a < b < i + 1 implies #[trigger] points@.take(i + 1)[a]
            != #[trigger] points@.take(i + 1)[b] by {
            if b < i {
                assert(points@.take(i as int)[a] != points@.take(i as int)[b]);
            }
        }
        assert forall|k: int| 0 <= k < i + 1 implies in_range(#[trigger] points@.take(i + 1)[k]) by {
            if k < i {
                assert(in_range(points@.take(i as int)[k]));
            }
        }
        i += 1;
    }
    assert(points@.take(points.len() as int) == points@);
    None
}

impl StarQuads {
    /// Whether `points` can be hashed: no coordinate above
    /// [`MAX_COORDINATE`] and no point twice.
    pub open spec fn accepts(points: Seq<Point>) -> bool {
        all_in_range(points) && all_distinct(points)
    }

    /// Describes every star of `points` by its three nearest neighbours.
    ///
    /// Fewer than four stars are a degenerate input, since a star would lack
    /// a neighbour. A coordinate out of range or a star that occurs twice is an
    /// input error. Otherwise there is one quad for each star, in the order of
    /// `points`: its neighbours are what the index lists as nearest, the star
    /// itself passed over, and they are the three nearest of the other stars.
    pub fn from(points: &Vec<Point>) -> (made: Result<StarQuads, Error>)
        ensures
            made is Ok <==> points.len() >= MIN_POINTS && Self::accepts(points@),
            made matches Ok(quads) ==> quads.0.len() == points.len() && forall|i: int|
                0 <= i < points.len() ==> {
                    &&& (#[trigger] quads.0[i])@ == quad_of(points@, i)
                    &&& nearest_three(points@, points[i], quads.0[i]@.closest)
                },
            made matches Err(error) ==> if points.len() < MIN_POINTS {
                error == Error::DegenerateInput
            } else {
                error.is_input_error("points"@)
            },
    {
        if points.len() < MIN_POINTS {
            return Err(Error::DegenerateInput);
        }
        if first_unfit(points).is_some() {
            return Err(Error::input("points", "a coordinate is out of range or a point occurs twice"));
        }
        let index = build_index(points);
        let mut quads: Vec<StarQuad> = Vec::with_capacity(points.len());
        let mut i: usize = 0;
        while i < points.len()
            invariant
                i <= points.len(),
                points.len() >= MIN_POINTS,
                Self::accepts(points@),
                indexed_points(index) == points@,
                quads.len() == i,
                forall|k: int|
                    0 <= k < i ==> {
                        &&& (#[trigger] quads[k])@ == quad_of(points@, k)
                        &&& nearest_three(points@, points[k], quads[k]@.closest)
                    },
            decreases points.len() - i,
        {
            let anchor = points[i];
            let listed = nearest_in_index(&index, anchor, 4);
            proof {
                let positions = choose|positions: Seq<int>| #[trigger]
                    lists_nearest(points@, anchor, 4, listed@, positions);
                lemma_closest_three_are_nearest(points@, i as int, listed@, positions);
            }
            let closest: [StarQuadEntry; 3] = if listed[0].x == anchor.x && listed[0].y == anchor.y {
                [listed[1], listed[2], listed[3]]
            } else if listed[1].x == anchor.x && listed[1].y == anchor.y {
                [listed[0], listed[2], listed[3]]
            } else if listed[2].x == anchor.x && listed[2].y == anchor.y {
                [listed[0], listed[1], listed[3]]
            } else {
                [listed[0], listed[1], listed[2]]
            };
            assert(closest@ =~= closest_three(listed@, anchor));
            let quad = StarQuad { x: anchor.x, y: anchor.y, closest_points: closest };
            quads.push(quad);
            i += 1;
        }
        Ok(StarQuads(quads))
    }

    /// The quads, in the order of their stars.
    pub fn iter(&self) -> (quads: &Vec<StarQuad>)
        ensures
            quads@ == self.0@,
    {
        &self.0
    }
}

/// What the index lists as the four nearest to one of its points holds, that
/// point passed over, the three nearest of the others.
pub proof fn lemma_closest_three_are_nearest(
    points: Seq<Point>,
    at: int,
    listed: Seq<StarQuadEntry>,
    positions: Seq<int>,
)
    requires
        0 <= at < points.len(),
        points.len() >= 4,
        all_in_range(points),
        all_distinct(points),
        lists_nearest(points, points[at], 4, listed, positions),
    ensures
        nearest_three(points, points[at], closest_three(listed, points[at])),
        forall|k: int| 0 <= k < 3 ==> in_range((#[trigger] closest_three(listed, points[at])[k]).point()),
{
    let anchor = points[at];
    let closest = closest_three(listed, anchor);
    assert(listed.len() == 4);
    // No two listed entries hold one point, so at most one holds the anchor.
    assert forall|i: int, j: int| 0 <= i < j < 4 implies listed[i].point() != listed[j].point() by {
        assert(positions[i] != positions[j]);
        assert(points[positions[i]] == listed[i].point());
        assert(points[positions[j]] == listed[j].point());
        if positions[i] < positions[j] {
            assert(points[positions[i]] != points[positions[j]]);
        } else {
            assert(points[positions[j]] != points[positions[i]]);
        }
    }
    assert forall|i: int| 0 <= i < 4 implies points.contains(#[trigger] listed[i].point()) && in_range(
        listed[i].point(),
    ) by {
        assert(points[positions[i]] == listed[i].point());
    }
    assert(listed[0].distance <= listed[1].distance <= listed[2].distance <= listed[3].distance);
    assert forall|k: int| 0 <= k < 3 implies points.contains((#[trigger] closest[k]).point()) && closest[k].point()
        != anchor && closest[k].distance == squared_distance(anchor, closest[k].point()) && in_range(
        closest[k].point(),
    ) by {
        assert(points.contains(listed[0].point()) && points.contains(listed[1].point()));
        assert(points.contains(listed[2].point()) && points.contains(listed[3].point()));
    }
    assert forall|p: int|
        0 <= p < points.len() && #[trigger] points[p] != anchor && points[p] != closest[0].point() && points[p]
            != closest[1].point() && points[p] != closest[2].point() implies closest[2].distance
        <= squared_distance(anchor, points[p]) by {
        if positions.contains(p) {
            let i = choose|i: int| 0 <= i < positions.len() && positions[i] == p;
            assert(points[positions[i]] == listed[i].point());
            assert(listed[i].distance == squared_distance(anchor, points[p]));
        } else {
            assert(listed[0].distance <= squared_distance(anchor, points[p]));
            assert(listed[1].distance <= squared_distance(anchor, points[p]));
            assert(listed[2].distance <= squared_distance(anchor, points[p]));
            assert(listed[3].distance <= squared_distance(anchor, points[p]));
        }
    }
}

/// The hasher is deterministic: what it says of a star depends on the list
/// of stars alone. Two lists of quads that were made for one list of stars
/// hold the same quads, with the same signatures.
pub proof fn lemma_hasher_is_deterministic(points: Seq<Point>, first: Seq<StarQuad>, second: Seq<StarQuad>)
    requires
        first.len() == points.len(),
        second.len() == points.len(),
        forall|i: int| 0 <= i < points.len() ==> (#[trigger] first[i])@ == quad_of(points, i),
        forall|i: int| 0 <= i < points.len() ==> (#[trigger] second[i])@ == quad_of(points, i),
    ensures
        forall|i: int|
            0 <= i < points.len() ==> (#[trigger] first[i])@ == second[i]@ && first[i]@.codes()
                == second[i]@.codes() && first[i]@.scale() == second[i]@.scale(),
{
    assert forall|i: int| 0 <= i < points.len() implies (#[trigger] first[i])@ == second[i]@ && first[i]@.codes()
        == second[i]@.codes() && first[i]@.scale() == second[i]@.scale() by {
        assert(first[i]@ == quad_of(points, i));
        assert(second[i]@ == quad_of(points, i));
    }
}

/// Multiplying the coordinates of two points by `factor` multiplies their
/// squared distance by the square of `factor`.
pub proof fn lemma_squared_distance_scales(a: Point, b: Point, factor: nat)
    requires
        a.x * factor <= MAX_COORDINATE,
        a.y * factor <= MAX_COORDINATE,
        b.x * factor <= MAX_COORDINATE,
        b.y * factor <= MAX_COORDINATE,
    ensures
        squared_distance(scaled_point(a, factor), scaled_point(b, factor)) == squared_distance(a, b) * factor
            * factor,
{
    let (ax, ay, bx, by) = (a.x as int, a.y as int, b.x as int, b.y as int);
    let k = factor as int;
    assert((ax * k - bx * k) * (ax * k - bx * k) + (ay * k - by * k) * (ay * k - by * k) == ((ax - bx) * (ax
        - bx) + (ay - by) * (ay - by)) * k * k) by (nonlinear_arith);
    assert((ax - bx) * (ax - bx) + (ay - by) * (ay - by) >= 0) by (nonlinear_arith);
}

/// The signature does not change with the scale of the image: when every
/// coordinate of a quad is multiplied by `factor`, each of the six squared
/// distances and the largest of them are multiplied by the square of
/// `factor`, so each feature, a squared distance over the largest, stays what
/// it was.
pub proof fn lemma_signature_is_scale_free(quad: QuadView, factor: nat)
    requires
        quad.wf(),
        factor >= 1,
        quad.anchor.x * factor <= MAX_COORDINATE,
        quad.anchor.y * factor <= MAX_COORDINATE,
        forall|k: int|
            0 <= k < 3 ==> (#[trigger] quad.closest[k]).x * factor <= MAX_COORDINATE && quad.closest[k].y
                * factor <= MAX_COORDINATE,
    ensures
        quad.scaled(factor).wf(),
        forall|i: int|
            0 <= i < 6 ==> #[trigger] quad.scaled(factor).codes()[i] == quad.codes()[i] * factor * factor,
        quad.scaled(factor).scale() == quad.scale() * factor * factor,
        forall|i: int|
            0 <= i < 6 ==> #[trigger] quad.scaled(factor).codes()[i] * quad.scale() == quad.codes()[i]
                * quad.scaled(factor).scale(),
{
    let grown = quad.scaled(factor);
    let square = factor * factor;
    assert(quad.closest[0].x * factor <= MAX_COORDINATE && quad.closest[1].x * factor <= MAX_COORDINATE
        && quad.closest[2].x * factor <= MAX_COORDINATE);
    lemma_squared_distance_scales(quad.anchor, quad.closest[0].point(), factor);
    lemma_squared_distance_scales(quad.anchor, quad.closest[1].point(), factor);
    lemma_squared_distance_scales(quad.anchor, quad.closest[2].point(), factor);
    lemma_squared_distance_scales(quad.closest[0].point(), quad.closest[1].point(), factor);
    lemma_squared_distance_scales(quad.closest[0].point(), quad.closest[2].point(), factor);
    lemma_squared_distance_scales(quad.closest[1].point(), quad.closest[2].point(), factor);
    assert forall|k: int| 0 <= k < 3 implies in_range((#[trigger] grown.closest[k]).point())
        && grown.closest[k].distance == squared_distance(grown.anchor, grown.closest[k].point())
        && grown.closest[k].point() == scaled_point(quad.closest[k].point(), factor) by {
        let entry = quad.closest[k];
        let far = scaled_point(entry.point(), factor);
        assert(grown.closest[k] == scaled_entry(entry, factor));
        assert(entry.distance == squared_distance(quad.anchor, entry.point()));
        lemma_squared_distance_scales(quad.anchor, entry.point(), factor);
        lemma_squared_distance_bounded(grown.anchor, far);
        assert(entry.distance * factor * factor == squared_distance(grown.anchor, far));
    }
    assert(grown.closest[0].point() == scaled_point(quad.closest[0].point(), factor));
    assert(grown.closest[1].point() == scaled_point(quad.closest[1].point(), factor));
    assert(grown.closest[2].point() == scaled_point(quad.closest[2].point(), factor));
    let old = quad.codes();
    let new = grown.codes();
    assert(new[0] == old[0] * factor * factor);
    assert(new[1] == old[1] * factor * factor);
    assert(new[2] == old[2] * factor * factor);
    assert(new[3] == old[3] * factor * factor);
    assert(new[4] == old[4] * factor * factor);
    assert(new[5] == old[5] * factor * factor);
    assert forall|a: nat, b: nat| larger(a * factor * factor, b * factor * factor) == #[trigger] larger(a, b)
        * factor * factor by {
        assert(a >= b ==> a * factor * factor >= b * factor * factor) by (nonlinear_arith);
        assert(a < b ==> a * factor * factor <= b * factor * factor) by (nonlinear_arith);
    }
    assert(larger(old[4], old[5]) * factor * factor == larger(new[4], new[5]));
    assert(larger(old[3], larger(old[4], old[5])) * factor * factor == larger(new[3], larger(new[4], new[5])));
    assert(larger(old[2], larger(old[3], larger(old[4], old[5]))) * factor * factor == larger(
        new[2],
        larger(new[3], larger(new[4], new[5])),
    ));
    assert(larger(old[1], larger(old[2], larger(old[3], larger(old[4], old[5])))) * factor * factor == larger(
        new[1],
        larger(new[2], larger(new[3], larger(new[4], new[5]))),
    ));
    assert(grown.scale() == quad.scale() * factor * factor);
    assert forall|i: int| 0 <= i < 6 implies #[trigger] new[i] * quad.scale() == old[i] * grown.scale() by {
        let code = old[i];
        let top = quad.scale();
        assert(new[i] == code * factor * factor);
        assert((code * factor * factor) * top == code * (top * factor * factor)) by (nonlinear_arith);
    }
}

/// The squared distance of two points in range fits 63 bits.
pub proof fn lemma_squared_distance_bounded(a: Point, b: Point)
    requires
        in_range(a),
        in_range(b),
    ensures
        squared_distance(a, b) <= 0x7FFF_FFFF_0000_0002,
{
    let dx = a.x - b.x;
    let dy = a.y - b.y;
    assert(0 <= dx * dx <= 0x3FFF_FFFF_0000_0001) by (nonlinear_arith)
        requires
            -0x7FFF_FFFF <= dx <= 0x7FFF_FFFF,
    ;
    assert(0 <= dy * dy <= 0x3FFF_FFFF_0000_0001) by (nonlinear_arith)
        requires
            -0x7FFF_FFFF <= dy <= 0x7FFF_FFFF,
    ;
}

} // verus!
