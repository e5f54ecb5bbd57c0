use geo::{Centroid, Coord, Distance, Euclidean, LineString};
use stardetect::binarize::binarize_image;
use stardetect::buffer::{GrayFrame, PixelBuffer, SampleDepth};
use stardetect::centroid::{
    contains_coord, deduplicate, find_rgb_stars, find_star_centres_and_size, star_from_contour, trace_contours,
    Contour, OutlineMeasure, Point, StarCenter,
};
use stardetect::image_extensions::{channel_wise_split, foreground_plane};
use stardetect::Error;

/// The centroid of the closed polygon through the points of a contour and
/// the largest distance from it to any of them.
fn measure(contour: &Contour) -> OutlineMeasure {
    let mut outline =
        LineString::from_iter(contour.points.iter().map(|point| Coord { x: point.x as f32, y: point.y as f32 }));
    outline.close();
    let center = outline.centroid().unwrap();
    let radius = outline.points().fold(0f32, |farthest, point| Euclidean.distance(point, center).max(farthest));
    OutlineMeasure { center_x: center.x().to_bits(), center_y: center.y().to_bits(), radius: radius.to_bits() }
}

fn stars_in(frame: &GrayFrame, min_size: usize, max_size: usize) -> Vec<StarCenter> {
    let contours = trace_contours(frame);
    let measures: Vec<OutlineMeasure> = contours.iter().map(measure).collect();
    find_star_centres_and_size(&contours, &measures, frame.width(), frame.height(), min_size, max_size).unwrap()
}

fn frame_with_disks(width: u32, height: u32, disks: &[(u32, u32, u32)]) -> Vec<u8> {
    let mut data = vec![0u8; (width * height) as usize];
    for y in 0..height {
        for x in 0..width {
            for (cx, cy, radius) in disks {
                let dx = x as i64 - *cx as i64;
                let dy = y as i64 - *cy as i64;
                if dx * dx + dy * dy <= (*radius as i64) * (*radius as i64) {
                    data[(y * width + x) as usize] = 255;
                }
            }
        }
    }
    data
}

fn measured(x: f32, y: f32, radius: f32) -> OutlineMeasure {
    OutlineMeasure { center_x: x.to_bits(), center_y: y.to_bits(), radius: radius.to_bits() }
}

fn border(points: &[(u32, u32)]) -> Contour {
    Contour { points: points.iter().map(|(x, y)| Point { x: *x, y: *y }).collect() }
}

#[test]
fn a_lone_bright_pixel_is_a_star_of_radius_one() {
    let mut data = vec![0u8; 25];
    data[2 * 5 + 3] = 255;
    let frame = GrayFrame::from_raw(5, 5, data).unwrap();
    let contours = trace_contours(&frame);
    assert_eq!(contours.len(), 1);
    assert_eq!(contours[0].points, vec![Point { x: 3, y: 2 }]);
    let kept = stars_in(&frame, 1, 1);
    assert_eq!(kept, vec![StarCenter::new(Point { x: 3, y: 2 }, 1)]);
    assert_eq!(kept[0].coord(), &Point { x: 3, y: 2 });
    assert_eq!(kept[0].radius(), 1);
}

#[test]
fn a_lone_bright_pixel_is_dropped_by_a_band_above_one() {
    let mut data = vec![0u8; 25];
    data[2 * 5 + 3] = 255;
    let frame = GrayFrame::from_raw(5, 5, data).unwrap();
    assert_eq!(stars_in(&frame, 2, 24), vec![]);
}

#[test]
fn an_empty_frame_has_no_contours() {
    let frame = GrayFrame::from_raw(6, 4, vec![0u8; 24]).unwrap();
    assert_eq!(trace_contours(&frame).len(), 0);
    let frame = GrayFrame::from_raw(0, 0, vec![]).unwrap();
    assert_eq!(trace_contours(&frame).len(), 0);
}

#[test]
fn every_traced_point_is_a_foreground_pixel() {
    let data = frame_with_disks(40, 30, &[(10, 10, 4), (28, 18, 6)]);
    let frame = GrayFrame::from_raw(40, 30, data.clone()).unwrap();
    let contours = trace_contours(&frame);
    assert_eq!(contours.len(), 2);
    for contour in &contours {
        assert!(!contour.points.is_empty());
        for point in &contour.points {
            assert!(point.x < 40 && point.y < 30);
            assert_ne!(data[(point.y * 40 + point.x) as usize], 0);
        }
    }
}

#[test]
fn any_non_zero_byte_is_foreground() {
    let mut data = vec![0u8; 9];
    data[4] = 1;
    let frame = GrayFrame::from_raw(3, 3, data).unwrap();
    let contours = trace_contours(&frame);
    assert_eq!(contours.len(), 1);
    assert_eq!(contours[0].points, vec![Point { x: 1, y: 1 }]);
}

#[test]
fn a_filled_disk_is_detected_with_its_radius() {
    for radius in [3u32, 5, 8, 12] {
        let data = frame_with_disks(60, 60, &[(30, 30, radius)]);
        let frame = GrayFrame::from_raw(60, 60, data).unwrap();
        let stars = stars_in(&frame, 1, 24);
        assert_eq!(stars.len(), 1);
        assert!(stars[0].coord().x.abs_diff(30) <= 1);
        assert!(stars[0].coord().y.abs_diff(30) <= 1);
        assert!(stars[0].radius().abs_diff(radius) <= 1);
    }
}

#[test]
fn the_band_is_inclusive_at_both_ends() {
    let outline = border(&[(0, 0), (8, 0), (8, 8), (0, 8)]);
    assert_eq!(
        star_from_contour(&outline, &measured(4.0, 4.0, 5.0), 100, 100, 5, 5),
        Some(StarCenter::new(Point { x: 4, y: 4 }, 5))
    );
    assert_eq!(star_from_contour(&outline, &measured(4.0, 4.0, 5.0), 100, 100, 6, 9), None);
    assert_eq!(star_from_contour(&outline, &measured(4.0, 4.0, 5.0), 100, 100, 1, 4), None);
    assert_eq!(
        star_from_contour(&outline, &measured(4.0, 4.0, 5.6568542), 100, 100, 5, 6),
        Some(StarCenter::new(Point { x: 4, y: 4 }, 5))
    );
}

#[test]
fn a_radius_beyond_the_band_is_dropped_though_its_whole_part_fits() {
    let outline = border(&[(0, 0), (8, 0), (8, 8), (0, 8)]);
    assert_eq!(star_from_contour(&outline, &measured(4.0, 4.0, 24.000002), 100, 100, 1, 24), None);
    assert_eq!(
        star_from_contour(&outline, &measured(4.0, 4.0, 24.0), 100, 100, 1, 24),
        Some(StarCenter::new(Point { x: 4, y: 4 }, 24))
    );
    assert_eq!(star_from_contour(&outline, &measured(4.0, 4.0, 0.99999994), 100, 100, 1, 24), None);
    assert_eq!(star_from_contour(&outline, &measured(4.0, 4.0, f32::NAN), 100, 100, 0, 24), None);
    assert_eq!(star_from_contour(&outline, &measured(4.0, 4.0, f32::INFINITY), 100, 100, 0, usize::MAX), None);
}

#[test]
fn a_measure_is_cut_to_whole_pixels() {
    let outline = border(&[(0, 0), (8, 0), (8, 8), (0, 8)]);
    assert_eq!(
        star_from_contour(&outline, &measured(49.99999, 3.9, 6.7), 100, 100, 1, 24),
        Some(StarCenter::new(Point { x: 49, y: 3 }, 6))
    );
    assert_eq!(
        star_from_contour(&outline, &measured(-0.5, f32::NAN, 0.0), 100, 100, 0, 24),
        Some(StarCenter::new(Point { x: 0, y: 0 }, 0))
    );
}

#[test]
fn an_empty_contour_gives_no_star() {
    assert_eq!(star_from_contour(&border(&[]), &measured(4.0, 4.0, 5.0), 100, 100, 0, 24), None);
}

#[test]
fn a_single_point_ignores_its_measure() {
    assert_eq!(
        star_from_contour(&border(&[(7, 9)]), &measured(1.0, 1.0, 20.0), 100, 100, 1, 24),
        Some(StarCenter::new(Point { x: 7, y: 9 }, 1))
    );
    assert_eq!(star_from_contour(&border(&[(7, 9)]), &measured(1.0, 1.0, 20.0), 100, 100, 0, 0), None);
}

#[test]
fn stars_keep_the_order_of_their_contours_and_are_not_deduplicated() {
    let contours = vec![
        border(&[(1, 1)]),
        border(&[(0, 0), (4, 0), (4, 4)]),
        border(&[]),
        border(&[(0, 0), (9, 0), (9, 9)]),
        border(&[(1, 1)]),
    ];
    let measures = vec![
        measured(0.0, 0.0, 0.0),
        measured(2.6, 2.2, 3.1),
        measured(0.0, 0.0, 2.0),
        measured(5.0, 5.0, 30.5),
        measured(0.0, 0.0, 0.0),
    ];
    let stars = find_star_centres_and_size(&contours, &measures, 100, 100, 1, 24).unwrap();
    assert_eq!(
        stars,
        vec![
            StarCenter::new(Point { x: 1, y: 1 }, 1),
            StarCenter::new(Point { x: 2, y: 2 }, 3),
            StarCenter::new(Point { x: 1, y: 1 }, 1),
        ]
    );
}

#[test]
fn measures_must_match_the_contours() {
    let contours = vec![border(&[(1, 1)]), border(&[(2, 2)])];
    let found = find_star_centres_and_size(&contours, &vec![measured(0.0, 0.0, 1.0)], 100, 100, 1, 24);
    assert!(matches!(found, Err(Error::InputError { ref parameter_name, .. }) if parameter_name == "measures"));
}

#[test]
fn consensus_takes_equal_coordinates_for_one_star_and_keeps_the_red_radius() {
    let at = Point { x: 10, y: 12 };
    let red = vec![StarCenter::new(at, 3), StarCenter::new(at, 7)];
    let green = vec![StarCenter::new(at, 4)];
    let blue = vec![StarCenter::new(at, 5), StarCenter::new(at, 6)];
    assert_eq!(find_rgb_stars(&red, &green, &blue), vec![StarCenter::new(at, 3)]);
}

#[test]
fn consensus_wants_a_star_on_every_channel() {
    let a = Point { x: 1, y: 1 };
    let b = Point { x: 2, y: 2 };
    let c = Point { x: 3, y: 3 };
    let d = Point { x: 4, y: 4 };
    let red = vec![StarCenter::new(a, 1), StarCenter::new(b, 2), StarCenter::new(c, 3), StarCenter::new(d, 4)];
    let green = vec![StarCenter::new(d, 9), StarCenter::new(b, 2), StarCenter::new(a, 1)];
    let blue = vec![StarCenter::new(b, 5), StarCenter::new(c, 3), StarCenter::new(d, 4)];
    assert_eq!(find_rgb_stars(&red, &green, &blue), vec![StarCenter::new(b, 2), StarCenter::new(d, 4)]);
    assert_eq!(find_rgb_stars(&red, &green, &vec![]), vec![]);
    assert_eq!(find_rgb_stars(&vec![], &green, &blue), vec![]);
}

#[test]
fn consensus_distinguishes_coordinates_that_differ_in_one_part() {
    let red = vec![StarCenter::new(Point { x: 1, y: 2 }, 1)];
    let green = vec![StarCenter::new(Point { x: 2, y: 1 }, 1), StarCenter::new(Point { x: 1, y: 3 }, 1)];
    let blue = vec![StarCenter::new(Point { x: 1, y: 2 }, 1)];
    assert_eq!(find_rgb_stars(&red, &green, &blue), vec![]);
}

#[test]
fn a_pixel_lit_on_red_alone_is_no_star() {
    let mut samples = vec![0u32; 5 * 5 * 3];
    samples[(2 * 5 + 2) * 3] = 250;
    for channel in 0..3 {
        samples[(1 * 5 + 4) * 3 + channel] = 250;
    }
    let mut image = PixelBuffer::new(SampleDepth::Eight, 3, 5, 5, samples).unwrap();
    binarize_image(&mut image, 200);
    let (red, green, blue) = channel_wise_split(&image);
    let on_red = stars_in(&red, 1, 24);
    assert_eq!(on_red.len(), 2);
    assert!(on_red.contains(&StarCenter::new(Point { x: 2, y: 2 }, 1)));
    let stars = find_rgb_stars(&on_red, &stars_in(&green, 1, 24), &stars_in(&blue, 1, 24));
    assert_eq!(stars, vec![StarCenter::new(Point { x: 4, y: 1 }, 1)]);
}

#[test]
fn five_disks_are_found_end_to_end() {
    let centers = [(20u32, 20u32), (70, 25), (45, 50), (20, 80), (80, 75)];
    let disks: Vec<(u32, u32, u32)> = centers.iter().map(|(x, y)| (*x, *y, 5)).collect();
    let gray = frame_with_disks(100, 100, &disks);
    let samples: Vec<u32> = gray.iter().flat_map(|byte| [*byte as u32, *byte as u32, *byte as u32]).collect();
    let mut image = PixelBuffer::new(SampleDepth::Eight, 3, 100, 100, samples).unwrap();
    binarize_image(&mut image, 200);
    let (red, green, blue) = channel_wise_split(&image);
    let stars = find_rgb_stars(&stars_in(&red, 3, 8), &stars_in(&green, 3, 8), &stars_in(&blue, 3, 8));
    assert_eq!(stars.len(), 5);
    for (x, y) in centers {
        let hits = stars
            .iter()
            .filter(|star| star.coord().x.abs_diff(x) <= 1 && star.coord().y.abs_diff(y) <= 1)
            .count();
        assert_eq!(hits, 1);
    }
    for star in &stars {
        assert!(3 <= star.radius() && star.radius() <= 8);
    }
    let lit = foreground_plane(&image).unwrap();
    assert_eq!(stars_in(&lit, 3, 8).len(), 5);
}

#[test]
fn a_lower_cutoff_can_merge_two_stars_into_one() {
    let samples = vec![0, 0, 0, 0, 0, 0, 255, 100, 255, 0, 0, 0, 0, 0, 0];
    let count_at = |level: u8| {
        let mut image = PixelBuffer::new(SampleDepth::Eight, 1, 5, 3, samples.clone()).unwrap();
        binarize_image(&mut image, level);
        let (red, green, blue) = channel_wise_split(&image);
        find_rgb_stars(&stars_in(&red, 1, 24), &stars_in(&green, 1, 24), &stars_in(&blue, 1, 24)).len()
    };
    assert_eq!(count_at(200), 2);
    assert_eq!(count_at(50), 1);
}

#[test]
fn a_set_of_stars_holds_each_coordinate_once() {
    let a = Point { x: 1, y: 1 };
    let b = Point { x: 2, y: 2 };
    let stars = vec![StarCenter::new(a, 1), StarCenter::new(b, 2), StarCenter::new(a, 3), StarCenter::new(b, 2)];
    assert_eq!(deduplicate(&stars), vec![StarCenter::new(a, 1), StarCenter::new(b, 2)]);
    assert_eq!(deduplicate(&vec![]), vec![]);
    assert!(contains_coord(&stars, 4, b));
    assert!(!contains_coord(&stars, 1, b));
    assert!(!contains_coord(&stars, 4, Point { x: 1, y: 2 }));
}

#[test]
fn a_star_outside_the_frame_is_dropped() {
    let outline = border(&[(0, 0), (4, 0), (4, 4), (0, 4)]);
    assert_eq!(
        star_from_contour(&outline, &measured(4.9, 4.9, 3.0), 5, 5, 1, 24),
        Some(StarCenter::new(Point { x: 4, y: 4 }, 3))
    );
    assert_eq!(star_from_contour(&outline, &measured(1000.0, 2.0, 3.0), 5, 5, 1, 24), None);
    assert_eq!(star_from_contour(&outline, &measured(2.0, 5.0, 3.0), 5, 5, 1, 24), None);
    assert_eq!(star_from_contour(&outline, &measured(f32::INFINITY, 2.0, 3.0), 5, 5, 1, 24), None);
    assert_eq!(star_from_contour(&border(&[(5, 0)]), &measured(0.0, 0.0, 0.0), 5, 5, 1, 24), None);
    assert_eq!(
        star_from_contour(&border(&[(4, 0)]), &measured(0.0, 0.0, 0.0), 5, 5, 1, 24),
        Some(StarCenter::new(Point { x: 4, y: 0 }, 1))
    );
    let contours = vec![border(&[(0, 0), (4, 0), (4, 4)]), border(&[(0, 0), (4, 0), (4, 4)])];
    let measures = vec![measured(1000.0, 2.0, 3.0), measured(2.0, 2.0, 3.0)];
    assert_eq!(
        find_star_centres_and_size(&contours, &measures, 5, 5, 1, 24).unwrap(),
        vec![StarCenter::new(Point { x: 2, y: 2 }, 3)]
    );
}

#[test]
fn a_radius_that_is_cut_below_the_band_is_dropped() {
    let outline = border(&[(0, 0), (4, 0), (4, 4), (0, 4)]);
    let far = u32::MAX as usize;
    assert_eq!(
        star_from_contour(&outline, &measured(2.0, 2.0, 4294967296.0), 5, 5, far, usize::MAX),
        Some(StarCenter::new(Point { x: 2, y: 2 }, u32::MAX))
    );
    if let Some(beyond) = far.checked_add(1) {
        assert_eq!(star_from_contour(&outline, &measured(2.0, 2.0, 8589934592.0), 5, 5, beyond, usize::MAX), None);
    }
}
