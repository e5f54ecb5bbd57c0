use geo::{Centroid, Coord, Distance, Euclidean, LineString};
use stardetect::buffer::{PixelBuffer, SampleDepth};
use stardetect::centroid::{Contour, OutlineMeasure, Point, StarCenter};
use stardetect::detect::{channel_contours, log_floor, probe_contours, Detection, Reply, Request};
use stardetect::{Error, StarDetect};

fn measure(contour: &Contour) -> OutlineMeasure {
    let mut outline =
        LineString::from_iter(contour.points.iter().map(|point| Coord { x: point.x as f32, y: point.y as f32 }));
    outline.close();
    let center = outline.centroid().unwrap();
    let radius = outline.points().fold(0f32, |farthest, point| Euclidean.distance(point, center).max(farthest));
    OutlineMeasure { center_x: center.x().to_bits(), center_y: center.y().to_bits(), radius: radius.to_bits() }
}

fn measure_pending(detection: &Detection) -> Vec<Vec<OutlineMeasure>> {
    detection.pending().iter().map(|contours| contours.iter().map(measure).collect()).collect()
}

/// Runs a detection to its end on an image that stands for the filtered one,
/// and counts the requests for measures on the way.
fn run(detector: &StarDetect, filtered: &PixelBuffer) -> (Result<Vec<StarCenter>, Error>, usize) {
    let mut detection = detector.compute_star_centers();
    let mut measured = 0;
    loop {
        detection = match detection.request() {
            Request::Filter { .. } => detection.handle(Reply::Filtered(filtered.duplicate())),
            Request::Measure => {
                measured += 1;
                let measures = measure_pending(&detection);
                detection.handle(Reply::Measured(measures))
            },
            Request::Nothing => break,
        };
    }
    match detection {
        Detection::Finished(stars) => (Ok(stars), measured),
        Detection::Failed(error) => (Err(error), measured),
        _ => panic!("the detection has not ended"),
    }
}

fn unit_image(width: u32, height: u32, disks: &[(u32, u32, u32, f32)]) -> PixelBuffer {
    let mut samples = vec![0f32.to_bits(); (width * height * 3) as usize];
    for y in 0..height {
        for x in 0..width {
            for (cx, cy, radius, value) in disks {
                let dx = x as i64 - *cx as i64;
                let dy = y as i64 - *cy as i64;
                if dx * dx + dy * dy <= (*radius as i64) * (*radius as i64) {
                    for channel in 0..3 {
                        samples[((y * width + x) * 3 + channel) as usize] = value.to_bits();
                    }
                }
            }
        }
    }
    PixelBuffer::new(SampleDepth::Unit, 3, width, height, samples).unwrap()
}

#[test]
fn settings_start_from_their_defaults() {
    let detector = StarDetect::new(640, 480);
    assert_eq!(detector.minimum_star_count, 1000);
    assert_eq!(detector.minimum_star_size, 1);
    assert_eq!(detector.maximum_star_size, 24);
    assert_eq!(detector.maximum_decomposition_levels, 20);
    assert_eq!((detector.width, detector.height), (640, 480));
    let image = PixelBuffer::new(SampleDepth::Eight, 1, 3, 2, vec![0; 6]).unwrap();
    assert_eq!(StarDetect::try_from(&image), Ok(StarDetect::new(3, 2)));
}

#[test]
fn builders_change_one_setting_each() {
    let detector = StarDetect::new(10, 10)
        .with_minimum_star_count(5)
        .with_minimum_star_size(3)
        .with_maximum_star_size(8)
        .with_maximum_decomposition_levels(4);
    assert_eq!(detector.minimum_star_count, 5);
    assert_eq!(detector.minimum_star_size, 3);
    assert_eq!(detector.maximum_star_size, 8);
    assert_eq!(detector.maximum_decomposition_levels, 4);
    assert_eq!((detector.width, detector.height), (10, 10));
}

#[test]
fn flawed_settings_are_refused_before_anything_runs() {
    let no_target = StarDetect::new(10, 10).with_minimum_star_count(0);
    assert!(
        matches!(no_target.validate(), Err(Error::InputError { ref parameter_name, .. }) if parameter_name == "minimum_star_count")
    );
    let empty_band = StarDetect::new(10, 10).with_minimum_star_size(9).with_maximum_star_size(8);
    assert!(
        matches!(empty_band.validate(), Err(Error::InputError { ref parameter_name, .. }) if parameter_name == "minimum_star_size")
    );
    assert_eq!(StarDetect::new(10, 10).with_minimum_star_size(8).with_maximum_star_size(8).validate(), Ok(()));
    let detection = empty_band.compute_star_centers();
    assert_eq!(detection.request(), Request::Nothing);
    assert!(matches!(detection, Detection::Failed(Error::InputError { .. })));
    let image = unit_image(10, 10, &[]);
    assert!(matches!(run(&no_target, &image), (Err(Error::InputError { .. }), 0)));
}

#[test]
fn the_logarithm_is_rounded_down() {
    assert_eq!(log_floor(0), 0);
    assert_eq!(log_floor(1), 0);
    assert_eq!(log_floor(2), 0);
    assert_eq!(log_floor(3), 1);
    assert_eq!(log_floor(7), 1);
    assert_eq!(log_floor(8), 2);
    assert_eq!(log_floor(100), 4);
    assert_eq!(log_floor(1096), 6);
    assert_eq!(log_floor(1097), 7);
    assert_eq!(log_floor(u32::MAX), 22);
    for side in 0..200_000u32 {
        assert_eq!(log_floor(side), (side as f32).ln() as usize);
    }
    for (power, bound) in [(12u32, 162755u32), (15, 3269018), (18, 65659970), (20, 485165196), (22, 3584912847)] {
        assert_eq!(log_floor(bound), power as usize);
        assert_eq!(log_floor(bound - 1), power as usize - 1);
        assert!((bound as f64) >= (power as f64).exp() && ((bound - 1) as f64) < (power as f64).exp());
    }
}

#[test]
fn the_levels_follow_the_shorter_side_up_to_the_cap() {
    assert_eq!(StarDetect::new(100, 100).decomposition_levels(), 4);
    assert_eq!(StarDetect::new(4000, 100).decomposition_levels(), 4);
    assert_eq!(StarDetect::new(100, 4000).decomposition_levels(), 4);
    assert_eq!(StarDetect::new(4000, 3000).decomposition_levels(), 8);
    assert_eq!(StarDetect::new(4000, 3000).with_maximum_decomposition_levels(6).decomposition_levels(), 6);
    assert_eq!(StarDetect::new(u32::MAX, u32::MAX).decomposition_levels(), 20);
    assert_eq!(StarDetect::new(0, 100).decomposition_levels(), 0);
}

#[test]
fn layers_of_the_lower_half_of_the_scales_are_kept() {
    let detector = StarDetect::new(4000, 3000);
    assert!(detector.keeps_layer(Some(0)));
    assert!(detector.keeps_layer(Some(3)));
    assert!(!detector.keeps_layer(Some(4)));
    assert!(!detector.keeps_layer(Some(7)));
    assert!(!detector.keeps_layer(None));
    assert!(!StarDetect::new(2, 2).keeps_layer(Some(0)));
    assert_eq!(
        detector.compute_star_centers().request(),
        Request::Filter { levels: 8, below: 4 }
    );
}

#[test]
fn an_all_black_image_fails_to_converge() {
    let detector = StarDetect::new(32, 32).with_minimum_star_count(1);
    let black = unit_image(32, 32, &[]);
    let (result, measured) = run(&detector, &black);
    assert_eq!(result, Err(Error::ConvergenceFailure));
    assert_eq!(measured, 62);
    let not_a_number = PixelBuffer::new(SampleDepth::Unit, 3, 4, 4, vec![f32::NAN.to_bits(); 48]).unwrap();
    let detector = StarDetect::new(4, 4).with_minimum_star_count(1);
    assert_eq!(run(&detector, &not_a_number).0, Err(Error::ConvergenceFailure));
}

#[test]
fn the_search_stops_at_the_first_cutoff_with_enough_stars() {
    let image = unit_image(90, 40, &[(15, 20, 5, 1.0), (45, 20, 5, 0.9), (75, 20, 5, 0.5)]);
    let detector = StarDetect::new(90, 40).with_minimum_star_size(3).with_maximum_star_size(8);
    let (stars, measured) = run(&detector.with_minimum_star_count(1), &image);
    assert_eq!(stars.unwrap().len(), 1);
    assert_eq!(measured, 2);
    let (stars, measured) = run(&detector.with_minimum_star_count(2), &image);
    assert_eq!(stars.unwrap().len(), 2);
    assert_eq!(measured, 3);
    let (stars, measured) = run(&detector.with_minimum_star_count(3), &image);
    let stars = stars.unwrap();
    assert_eq!(measured, 14);
    assert_eq!(stars.len(), 3);
    for (x, star) in [15u32, 45, 75].iter().zip(&stars) {
        assert!(star.coord().x.abs_diff(*x) <= 1 && star.coord().y.abs_diff(20) <= 1);
        assert!(3 <= star.radius() && star.radius() <= 8);
    }
    let (stars, _) = run(&detector.with_minimum_star_count(4), &image);
    assert_eq!(stars, Err(Error::ConvergenceFailure));
}

#[test]
fn a_filtered_image_of_another_size_is_refused() {
    let detection = StarDetect::new(10, 10).compute_star_centers();
    let after = detection.handle(Reply::Filtered(unit_image(10, 11, &[])));
    assert!(matches!(after, Detection::Failed(Error::InputError { ref parameter_name, .. }) if parameter_name == "filtered"));
}

#[test]
fn a_reply_must_answer_the_request() {
    let detection = StarDetect::new(10, 10).compute_star_centers();
    let after = detection.handle(Reply::Measured(vec![]));
    assert!(matches!(after, Detection::Failed(Error::InputError { ref parameter_name, .. }) if parameter_name == "reply"));
    let detection = StarDetect::new(10, 10).compute_star_centers().handle(Reply::Filtered(unit_image(10, 10, &[])));
    assert_eq!(detection.request(), Request::Measure);
    let after = detection.handle(Reply::Filtered(unit_image(10, 10, &[])));
    assert!(matches!(after, Detection::Failed(Error::InputError { ref parameter_name, .. }) if parameter_name == "reply"));
}

#[test]
fn measures_must_match_the_pending_contours() {
    let image = unit_image(20, 20, &[(10, 10, 4, 1.0)]);
    let detection = StarDetect::new(20, 20).compute_star_centers().handle(Reply::Filtered(image));
    assert_eq!(detection.pending().len(), 1);
    assert_eq!(detection.pending()[0].len(), 1);
    let after = detection.handle(Reply::Measured(vec![vec![]]));
    assert!(matches!(after, Detection::Failed(Error::InputError { ref parameter_name, .. }) if parameter_name == "measures"));
}

#[test]
fn a_detection_that_has_ended_stays_as_it_is() {
    let ended = Detection::Finished(vec![StarCenter::new(Point { x: 1, y: 2 }, 3)]);
    assert_eq!(ended.request(), Request::Nothing);
    assert_eq!(ended.pending().len(), 0);
    let after = ended.handle(Reply::Measured(vec![]));
    assert!(matches!(after, Detection::Finished(ref stars) if stars == &vec![StarCenter::new(Point { x: 1, y: 2 }, 3)]));
    let after = Detection::Failed(Error::ConvergenceFailure).handle(Reply::Measured(vec![]));
    assert!(matches!(after, Detection::Failed(Error::ConvergenceFailure)));
}

#[test]
fn probing_leaves_the_image_as_it_is() {
    let image = unit_image(20, 20, &[(10, 10, 4, 0.8)]);
    let before = image.samples().clone();
    assert_eq!(probe_contours(&image, 242).len(), 0);
    assert_eq!(probe_contours(&image, 195).len(), 1);
    assert_eq!(image.samples(), &before);
    let (red, green, blue) = channel_contours(image, 195);
    assert_eq!((red.len(), green.len(), blue.len()), (1, 1, 1));
}

#[test]
fn a_measure_outside_the_image_gives_no_star() {
    let image = unit_image(5, 5, &[(2, 2, 1, 1.0)]);
    let settings = StarDetect::new(5, 5).with_minimum_star_count(1);
    let honest = run(&settings, &image).0.unwrap();
    assert_eq!(honest.len(), 1);
    assert!(honest[0].coord().x < 5 && honest[0].coord().y < 5);

    let far = OutlineMeasure { center_x: 1000f32.to_bits(), center_y: 2f32.to_bits(), radius: 1f32.to_bits() };
    let mut detection = settings.compute_star_centers().handle(Reply::Filtered(image.duplicate()));
    let mut requests = 0;
    while detection.request() == Request::Measure {
        let measures = detection.pending().iter().map(|contours| vec![far; contours.len()]).collect();
        detection = detection.handle(Reply::Measured(measures));
        requests += 1;
    }
    assert_eq!(requests, 62);
    assert!(matches!(detection, Detection::Failed(Error::ConvergenceFailure)));
}

#[test]
fn a_state_with_flawed_settings_is_refused() {
    let no_target = StarDetect::new(4, 4).with_minimum_star_count(0);
    let after = Detection::Filtering { settings: no_target }.handle(Reply::Filtered(unit_image(4, 4, &[])));
    assert!(
        matches!(after, Detection::Failed(Error::InputError { ref parameter_name, .. }) if parameter_name == "minimum_star_count")
    );
    let probing =
        Detection::Probing { settings: no_target, filtered: unit_image(4, 4, &[]), cutoff: 242, contours: vec![] };
    let after = probing.handle(Reply::Measured(vec![vec![]]));
    assert!(
        matches!(after, Detection::Failed(Error::InputError { ref parameter_name, .. }) if parameter_name == "minimum_star_count")
    );
    let empty_band = StarDetect::new(4, 4).with_minimum_star_size(3).with_maximum_star_size(2);
    let resolving = Detection::Resolving { settings: empty_band, red: vec![], green: vec![], blue: vec![] };
    let after = resolving.handle(Reply::Measured(vec![vec![], vec![], vec![]]));
    assert!(
        matches!(after, Detection::Failed(Error::InputError { ref parameter_name, .. }) if parameter_name == "minimum_star_size")
    );
}
