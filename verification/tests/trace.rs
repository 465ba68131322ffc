use raytracer::coord;
use raytracer::trace::{background, Background, Path, Step, MAX_DEPTH, SUN_THRESHOLD};

fn c(v: f32) -> i32 {
    coord::from_bits(v.to_bits()).unwrap()
}

#[test]
fn the_threshold_is_the_coordinate_of_ninety_five_hundredths() {
    assert_eq!(SUN_THRESHOLD, c(0.95));
    assert_eq!(MAX_DEPTH, 7);
}

#[test]
fn the_sun_shows_from_the_threshold_on() {
    assert_eq!(background(c(0.95)), Background::SkyAndSun);
    assert_eq!(background(c(1.0)), Background::SkyAndSun);
    assert_eq!(background(c(0.9499999)), Background::Sky);
    assert_eq!(background(c(0.0)), Background::Sky);
    assert_eq!(background(c(-1.0)), Background::Sky);
}

#[test]
fn a_path_is_cut_off_at_its_depth() {
    let mut path = Path::new(2);
    assert!(!path.exhausted());
    assert_eq!(path.step(true, c(0.0)), Step::Scatter);
    assert_eq!(path.depth, 1);
    assert_eq!(path.step(true, c(0.0)), Step::Scatter);
    assert_eq!(path.depth, 2);
    assert!(path.exhausted());
    assert_eq!(path.step(true, c(1.0)), Step::Black);
    assert_eq!(path.step(false, c(1.0)), Step::Black);
    assert_eq!(path.depth, 2);
}

#[test]
fn a_path_of_depth_one_is_black_after_one_bounce() {
    // One bounce off a mirror and the path is spent, wherever the mirror
    // sends it.
    let mut path = Path::new(1);
    assert_eq!(path.step(true, c(0.3)), Step::Scatter);
    assert_eq!(path.step(false, c(1.0)), Step::Black);
    // With one more level the second segment reaches the sky.
    let mut path = Path::new(2);
    assert_eq!(path.step(true, c(0.3)), Step::Scatter);
    assert_eq!(path.step(false, c(0.3)), Step::Escape(Background::Sky));
    assert_eq!(path.depth, 1);
}

#[test]
fn a_path_that_meets_nothing_ends_in_the_background() {
    let mut path = Path::new(MAX_DEPTH);
    assert_eq!(path.step(false, c(0.99)), Step::Escape(Background::SkyAndSun));
    assert_eq!(path.depth, 0);
    assert_eq!(path.step(false, c(0.5)), Step::Escape(Background::Sky));
    assert_eq!(Path::new(0).step(false, c(0.99)), Step::Black);
}

#[test]
fn a_path_scatters_at_most_as_often_as_its_depth_allows() {
    let mut path = Path::new(MAX_DEPTH);
    let mut scattered = 0;
    while path.step(true, c(0.0)) == Step::Scatter {
        scattered += 1;
    }
    assert_eq!(scattered, 7);
}
