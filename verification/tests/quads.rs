use stardetect::centroid::Point;
use stardetect::quad::{squared_distance_between, StarQuadEntry, StarQuads, MAX_COORDINATE};
use stardetect::Error;

fn points(coordinates: &[(u32, u32)]) -> Vec<Point> {
    coordinates.iter().map(|(x, y)| Point { x: *x, y: *y }).collect()
}

fn entry(x: u32, y: u32, distance: u64) -> StarQuadEntry {
    StarQuadEntry { x, y, distance }
}

#[test]
fn fewer_than_four_points_are_degenerate() {
    assert!(matches!(StarQuads::from(&points(&[])), Err(Error::DegenerateInput)));
    assert!(matches!(StarQuads::from(&points(&[(0, 0), (1, 1), (2, 2)])), Err(Error::DegenerateInput)));
    assert!(StarQuads::from(&points(&[(0, 0), (1, 1), (2, 2), (3, 3)])).is_ok());
}

#[test]
fn a_point_twice_is_refused() {
    let made = StarQuads::from(&points(&[(0, 0), (1, 1), (2, 2), (1, 1)]));
    assert!(matches!(made, Err(Error::InputError { ref parameter_name, .. }) if parameter_name == "points"));
}

#[test]
fn a_coordinate_out_of_range_is_refused() {
    let made = StarQuads::from(&points(&[(0, 0), (1, 1), (2, 2), (MAX_COORDINATE + 1, 0)]));
    assert!(matches!(made, Err(Error::InputError { ref parameter_name, .. }) if parameter_name == "points"));
    let made = StarQuads::from(&points(&[(0, 0), (1, 1), (2, 2), (MAX_COORDINATE, MAX_COORDINATE)]));
    assert!(made.is_ok());
}

#[test]
fn squared_distance_is_exact() {
    assert_eq!(squared_distance_between(Point { x: 0, y: 0 }, Point { x: 3, y: 4 }), 25);
    assert_eq!(squared_distance_between(Point { x: 3, y: 4 }, Point { x: 0, y: 0 }), 25);
    assert_eq!(squared_distance_between(Point { x: 7, y: 7 }, Point { x: 7, y: 7 }), 0);
    assert_eq!(
        squared_distance_between(Point { x: 0, y: 0 }, Point { x: MAX_COORDINATE, y: MAX_COORDINATE }),
        2 * (MAX_COORDINATE as u64) * (MAX_COORDINATE as u64)
    );
}

#[test]
fn each_star_gets_its_three_nearest_neighbours() {
    let stars = points(&[(0, 0), (10, 0), (0, 20), (40, 40), (100, 0)]);
    let quads = StarQuads::from(&stars).unwrap();
    assert_eq!(quads.iter().len(), 5);
    let first = &quads.iter()[0];
    assert_eq!((first.x(), first.y()), (0, 0));
    assert_eq!(first.closest_points(), [entry(10, 0, 100), entry(0, 20, 400), entry(40, 40, 3200)]);
    let second = &quads.iter()[1];
    assert_eq!((second.x(), second.y()), (10, 0));
    assert_eq!(second.closest_points(), [entry(0, 0, 100), entry(0, 20, 500), entry(40, 40, 2500)]);
    let last = &quads.iter()[4];
    assert_eq!((last.x(), last.y()), (100, 0));
    assert_eq!(last.closest_points(), [entry(40, 40, 5200), entry(10, 0, 8100), entry(0, 0, 10000)]);
}

#[test]
fn a_star_is_not_its_own_neighbour() {
    let stars = points(&[(5, 5), (6, 5), (5, 7), (9, 9), (50, 50), (51, 50)]);
    let quads = StarQuads::from(&stars).unwrap();
    for (quad, star) in quads.iter().iter().zip(&stars) {
        assert_eq!((quad.x(), quad.y()), (star.x, star.y));
        let closest = quad.closest_points();
        for neighbour in closest {
            assert!((neighbour.x, neighbour.y) != (star.x, star.y));
            assert!(neighbour.distance > 0);
            assert_eq!(
                neighbour.distance,
                squared_distance_between(*star, Point { x: neighbour.x, y: neighbour.y })
            );
        }
        assert!(closest[0].distance <= closest[1].distance && closest[1].distance <= closest[2].distance);
        for other in &stars {
            let listed = closest.iter().any(|neighbour| (neighbour.x, neighbour.y) == (other.x, other.y));
            if !listed && other != star {
                assert!(squared_distance_between(*star, *other) >= closest[2].distance);
            }
        }
    }
}

#[test]
fn the_signature_holds_six_squared_distances_over_the_largest() {
    let stars = points(&[(0, 0), (3, 0), (0, 4), (6, 8)]);
    let quads = StarQuads::from(&stars).unwrap();
    let hash = quads.iter()[0].generate_normalized_hashes();
    assert_eq!(hash.codes, [9, 16, 100, 25, 73, 52]);
    assert_eq!(hash.scale, 100);
    let features: Vec<f32> = hash.codes.iter().map(|code| (*code as f32 / hash.scale as f32).sqrt()).collect();
    assert_eq!(&features[..4], &[0.3, 0.4, 1.0, 0.5]);
    assert_eq!(hash.feature(0, 10), Some(3));
    assert_eq!(hash.feature(1, 10), Some(4));
    assert_eq!(hash.feature(2, 10), Some(10));
    assert_eq!(hash.feature(3, 10), Some(5));
    assert_eq!(hash.feature(4, 1000), Some(854));
    assert_eq!(hash.feature(5, 1000), Some(721));
    assert_eq!(hash.feature(6, 10), None);
}

#[test]
fn the_corners_of_a_rectangle_have_the_features_of_its_sides_and_diagonal() {
    let stars = points(&[(0, 0), (3, 0), (0, 4), (3, 4)]);
    let quads = StarQuads::from(&stars).unwrap();
    for quad in quads.iter() {
        let hash = quad.generate_normalized_hashes();
        assert_eq!(hash.codes, [9, 16, 25, 25, 16, 9]);
        assert_eq!(hash.scale, 25);
        let tenths: Vec<Option<u32>> = (0..6).map(|index| hash.feature(index, 10)).collect();
        assert_eq!(tenths, vec![Some(6), Some(8), Some(10), Some(10), Some(8), Some(6)]);
        let features = hash.codes.map(|code| (code as f32 / hash.scale as f32).sqrt());
        assert_eq!(features, [0.6, 0.8, 1.0, 1.0, 0.8, 0.6]);
    }
}

#[test]
fn a_feature_is_rounded_down_to_whole_steps() {
    let stars = points(&[(0, 0), (1, 0), (0, 2), (5, 5)]);
    let hash = StarQuads::from(&stars).unwrap().iter()[0].generate_normalized_hashes();
    assert_eq!(hash.codes[0], 1);
    assert_eq!(hash.scale, 50);
    assert_eq!(hash.feature(0, 1000), Some(141));
    assert_eq!(hash.feature(0, 7), Some(0));
    assert_eq!(hash.feature(0, 0), Some(0));
    assert_eq!(hash.feature(2, u32::MAX), Some(u32::MAX));
    let odd = stardetect::quad::QuadHash { codes: [5, 0, 0, 0, 0, 0], scale: 4 };
    assert_eq!(odd.feature(0, 10), None);
    assert_eq!(odd.feature(1, 10), Some(0));
    let none = stardetect::quad::QuadHash { codes: [0; 6], scale: 0 };
    assert_eq!(none.feature(0, 10), None);
}

#[test]
fn the_largest_distance_may_lie_between_two_neighbours() {
    let stars = points(&[(10, 10), (0, 10), (20, 10), (10, 21)]);
    let quads = StarQuads::from(&stars).unwrap();
    let hash = quads.iter()[0].generate_normalized_hashes();
    assert_eq!(hash.scale, 400);
    assert_eq!(hash.codes[2], 121);
    assert!(hash.codes.contains(&400));
    assert!(hash.codes.iter().all(|code| *code <= hash.scale));
}

#[test]
fn the_signature_does_not_change_with_the_scale() {
    let stars = points(&[(1, 2), (4, 2), (1, 9), (8, 8), (30, 3)]);
    let grown: Vec<Point> = stars.iter().map(|star| Point { x: star.x * 7, y: star.y * 7 }).collect();
    let small = StarQuads::from(&stars).unwrap();
    let large = StarQuads::from(&grown).unwrap();
    for (a, b) in small.iter().iter().zip(large.iter()) {
        let (a, b) = (a.generate_normalized_hashes(), b.generate_normalized_hashes());
        assert_eq!(b.scale, a.scale * 49);
        for i in 0..6 {
            assert_eq!(b.codes[i], a.codes[i] * 49);
            assert_eq!(a.codes[i] * b.scale, b.codes[i] * a.scale);
        }
    }
}

#[test]
fn the_hasher_gives_the_same_quads_every_time() {
    let stars = points(&[(0, 0), (2, 0), (0, 2), (2, 2), (1, 1), (5, 1), (1, 5)]);
    let first = StarQuads::from(&stars).unwrap();
    let second = StarQuads::from(&stars).unwrap();
    assert_eq!(first.iter(), second.iter());
    for (a, b) in first.iter().iter().zip(second.iter()) {
        assert_eq!(a.generate_normalized_hashes(), b.generate_normalized_hashes());
    }
}

#[test]
fn neighbours_at_equal_distances_are_still_the_nearest() {
    let stars = points(&[(10, 10), (10, 11), (11, 10), (10, 9), (9, 10), (30, 30)]);
    let quads = StarQuads::from(&stars).unwrap();
    let closest = quads.iter()[0].closest_points();
    assert_eq!(closest.map(|neighbour| neighbour.distance), [1, 1, 1]);
    let far = quads.iter()[5].closest_points();
    assert_eq!(far.map(|neighbour| neighbour.distance), [761, 761, 800]);
}
