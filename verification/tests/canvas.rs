use raytracer::canvas::{gamma, push_decimal, Canvas, Drawable, Pixel, PixelRect};
use raytracer::coord;
use raytracer::shape::{Point3, Rect};

struct Dot {
    x: usize,
    y: usize,
}

impl Drawable for Dot {
    fn painted(&self, canvas: &Canvas, color: Pixel, x: usize, y: usize) -> Pixel {
        if x == self.x && y == self.y {
            canvas.get(x, y).saturating_add(color)
        } else {
            *canvas.get(x, y)
        }
    }

    fn outlined(&self, canvas: &Canvas, _color: Pixel, x: usize, y: usize) -> Pixel {
        *canvas.get(x, y)
    }

    fn draw(&self, canvas: &mut Canvas, color: Pixel) {
        canvas.add(self.x, self.y, color);
    }

    fn draw_outline(&self, _canvas: &mut Canvas, _color: Pixel) {}
}

fn rows(canvas: &Canvas) -> Vec<Vec<u8>> {
    (0..canvas.height())
        .map(|y| (0..canvas.width()).map(|x| canvas.get(x, y).0).collect())
        .collect()
}

#[test]
fn a_new_canvas_is_black() {
    let canvas = Canvas::new(3, 2);
    assert_eq!(canvas.width(), 3);
    assert_eq!(canvas.height(), 2);
    for y in 0..2 {
        for x in 0..3 {
            assert_eq!(*canvas.get(x, y), Pixel(0, 0, 0));
        }
    }
    assert_eq!(canvas.flat_pixels(), vec![0u8; 18]);
    assert_eq!(Canvas::new(0, 5).flat_pixels(), Vec::<u8>::new());
}

#[test]
fn positions_and_indices_correspond() {
    let canvas = Canvas::new(5, 3);
    assert_eq!(canvas.position_of(0), (0, 0));
    assert_eq!(canvas.position_of(4), (4, 0));
    assert_eq!(canvas.position_of(5), (0, 1));
    assert_eq!(canvas.position_of(14), (4, 2));
    let mut seen = Vec::new();
    for i in 0..15 {
        let (x, y) = canvas.position_of(i);
        assert!(canvas.check(x, y));
        assert_eq!(y * 5 + x, i);
        assert!(!seen.contains(&(x, y)));
        seen.push((x, y));
    }
}

#[test]
fn set_then_get_returns_the_pixel() {
    let mut canvas = Canvas::new(4, 3);
    canvas.set(1, 2, Pixel(9, 8, 7));
    assert_eq!(*canvas.get(1, 2), Pixel(9, 8, 7));
    assert_eq!(*canvas.get(2, 1), Pixel(0, 0, 0));
    let flat = canvas.flat_pixels();
    assert_eq!(&flat[(2 * 4 + 1) * 3..(2 * 4 + 1) * 3 + 3], &[9, 8, 7]);
    assert_eq!(flat.iter().filter(|b| **b != 0).count(), 3);
}

#[test]
fn writes_off_the_canvas_are_dropped() {
    let mut canvas = Canvas::new(4, 3);
    canvas.set(0, 1, Pixel(1, 1, 1));
    let before = canvas.flat_pixels();
    canvas.set(4, 0, Pixel(9, 9, 9));
    canvas.set(0, 3, Pixel(9, 9, 9));
    canvas.set(usize::MAX, usize::MAX, Pixel(9, 9, 9));
    canvas.add(4, 2, Pixel(9, 9, 9));
    canvas.add(3, 3, Pixel(9, 9, 9));
    assert_eq!(canvas.flat_pixels(), before);
    assert!(canvas.check(3, 2));
    assert!(!canvas.check(4, 2));
    assert!(!canvas.check(3, 3));
}

#[test]
fn add_clamps_each_channel() {
    let mut canvas = Canvas::new(2, 2);
    canvas.set(1, 1, Pixel(250, 100, 0));
    canvas.add(1, 1, Pixel(10, 100, 0));
    assert_eq!(*canvas.get(1, 1), Pixel(255, 200, 0));
    canvas.add(1, 1, Pixel(255, 55, 1));
    assert_eq!(*canvas.get(1, 1), Pixel(255, 255, 1));
    assert_eq!(*canvas.get(0, 1), Pixel(0, 0, 0));
    assert_eq!(Pixel(200, 1, 255).saturating_add(Pixel(56, 2, 1)), Pixel(255, 3, 255));
}

#[test]
fn get_mut_writes_through() {
    let mut canvas = Canvas::new(3, 3);
    *canvas.get_mut(2, 0) = Pixel(4, 5, 6);
    canvas.get_mut(0, 2).1 = 77;
    assert_eq!(*canvas.get(2, 0), Pixel(4, 5, 6));
    assert_eq!(*canvas.get(0, 2), Pixel(0, 77, 0));
    assert_eq!(canvas.flat_pixels().iter().map(|b| *b as u32).sum::<u32>(), 4 + 5 + 6 + 77);
}

#[test]
fn draw_goes_through_the_shape() {
    let mut canvas = Canvas::new(4, 3);
    canvas.draw(&Dot { x: 3, y: 0 }, Pixel::splat(200));
    canvas.draw(&Dot { x: 3, y: 0 }, Pixel::splat(100));
    canvas.draw_outline(&Dot { x: 1, y: 1 }, Pixel::splat(100));
    assert_eq!(*canvas.get(3, 0), Pixel(255, 255, 255));
    assert_eq!(*canvas.get(1, 1), Pixel(0, 0, 0));
}

#[test]
fn filling_a_rectangle_adds_to_its_pixels() {
    let mut canvas = Canvas::new(5, 4);
    canvas.set(2, 2, Pixel(250, 0, 0));
    canvas.draw(&PixelRect { x1: 1, y1: 1, x2: 3, y2: 2 }, Pixel(10, 20, 30));
    assert_eq!(
        rows(&canvas),
        vec![vec![0, 0, 0, 0, 0], vec![0, 10, 10, 10, 0], vec![0, 10, 255, 10, 0], vec![0, 0, 0, 0, 0]]
    );
    assert_eq!(*canvas.get(1, 1), Pixel(10, 20, 30));
}

#[test]
fn filling_stops_at_the_edge() {
    let mut canvas = Canvas::new(3, 2);
    canvas.draw(&PixelRect { x1: 2, y1: 1, x2: usize::MAX, y2: usize::MAX }, Pixel::splat(1));
    assert_eq!(rows(&canvas), vec![vec![0, 0, 0], vec![0, 0, 1]]);
    canvas.draw(&PixelRect { x1: 3, y1: 0, x2: 9, y2: 9 }, Pixel::splat(1));
    canvas.draw(&PixelRect { x1: 2, y1: 1, x2: 1, y2: 1 }, Pixel::splat(1));
    assert_eq!(rows(&canvas), vec![vec![0, 0, 0], vec![0, 0, 1]]);
    canvas.draw(&PixelRect { x1: 0, y1: 0, x2: 0, y2: 0 }, Pixel::splat(7));
    assert_eq!(rows(&canvas), vec![vec![7, 0, 0], vec![0, 0, 1]]);
    let mut empty = Canvas::new(0, 0);
    empty.draw(&PixelRect { x1: 0, y1: 0, x2: 5, y2: 5 }, Pixel::splat(7));
    empty.draw_outline(&PixelRect { x1: 0, y1: 0, x2: 5, y2: 5 }, Pixel::splat(7));
    assert_eq!(empty.flat_pixels(), Vec::<u8>::new());
}

#[test]
fn outlining_a_rectangle_stores_the_colour_on_its_border() {
    let mut canvas = Canvas::new(6, 5);
    canvas.set(2, 2, Pixel(3, 3, 3));
    canvas.set(1, 1, Pixel(3, 3, 3));
    canvas.draw_outline(&PixelRect { x1: 1, y1: 1, x2: 4, y2: 3 }, Pixel::splat(9));
    assert_eq!(
        rows(&canvas),
        vec![
            vec![0, 0, 0, 0, 0, 0],
            vec![0, 9, 9, 9, 9, 0],
            vec![0, 9, 3, 0, 9, 0],
            vec![0, 9, 9, 9, 9, 0],
            vec![0, 0, 0, 0, 0, 0],
        ]
    );
}

#[test]
fn an_outline_that_leaves_the_canvas_runs_along_its_edge() {
    let mut canvas = Canvas::new(4, 3);
    canvas.draw_outline(&PixelRect { x1: 1, y1: 1, x2: 100, y2: 100 }, Pixel::splat(9));
    assert_eq!(rows(&canvas), vec![vec![0, 0, 0, 0], vec![0, 9, 9, 9], vec![0, 9, 9, 9]]);
    let mut canvas = Canvas::new(4, 3);
    canvas.draw_outline(&PixelRect { x1: 7, y1: 0, x2: 9, y2: 1 }, Pixel::splat(9));
    // The first column lies off the canvas; the last is pulled back onto it.
    assert_eq!(rows(&canvas), vec![vec![0, 0, 0, 9], vec![0, 0, 0, 9], vec![0, 0, 0, 0]]);
}

#[test]
fn gamma_is_the_square_root_on_the_eight_bit_scale() {
    for v in 0..=255u8 {
        let expected = (((v as f64) / 256.0).sqrt() * 256.0) as u8;
        assert_eq!(gamma(v), expected, "at {}", v);
    }
    assert_eq!(gamma(0), 0);
    assert_eq!(gamma(1), 16);
    assert_eq!(gamma(2), 22);
    assert_eq!(gamma(64), 128);
    assert_eq!(gamma(255), 255);
}

#[test]
fn gamma_correct_maps_every_channel() {
    let mut canvas = Canvas::new(2, 1);
    canvas.set(0, 0, Pixel(0, 1, 4));
    canvas.set(1, 0, Pixel(64, 100, 255));
    canvas.gamma_correct();
    assert_eq!(canvas.flat_pixels(), vec![0, 16, 32, 128, 160, 255]);
    assert_eq!(canvas.width(), 2);
}

#[test]
fn encode_ppm_writes_header_and_channels() {
    let mut canvas = Canvas::new(2, 1);
    canvas.set(0, 0, Pixel(1, 2, 3));
    canvas.set(1, 0, Pixel(253, 254, 255));
    let mut expected = b"P6\n2 1\n255\n".to_vec();
    expected.extend_from_slice(&[1, 2, 3, 253, 254, 255]);
    assert_eq!(canvas.encode_ppm(), expected);
    let wide = Canvas::new(1200, 10);
    let bytes = wide.encode_ppm();
    assert!(bytes.starts_with(b"P6\n1200 10\n255\n"));
    assert_eq!(bytes.len(), 15 + 1200 * 10 * 3);
    assert_eq!(Canvas::new(0, 0).encode_ppm(), b"P6\n0 0\n255\n".to_vec());
}

#[test]
fn push_decimal_appends_the_digits() {
    let mut out = vec![b'x'];
    push_decimal(&mut out, 0);
    push_decimal(&mut out, 7);
    push_decimal(&mut out, 10);
    push_decimal(&mut out, 4096);
    assert_eq!(out, b"x07104096".to_vec());
    let mut out = Vec::new();
    push_decimal(&mut out, usize::MAX);
    assert_eq!(out, format!("{}", usize::MAX).into_bytes());
}

#[test]
fn pixels_by_name() {
    assert_eq!(Pixel::splat(7), Pixel(7, 7, 7));
    assert_eq!(Pixel::white(), Pixel::splat(255));
    assert_eq!(Pixel::black(), Pixel::splat(0));
    assert_eq!(Pixel::default(), Pixel(0, 0, 0));
    assert_eq!(Pixel::red(), Pixel(255, 0, 0));
    assert_eq!(Pixel::green(), Pixel(0, 255, 0));
    assert_eq!(Pixel::blue(), Pixel(0, 0, 255));
    assert_eq!(Pixel::yellow(), Pixel(255, 255, 0));
    assert_eq!(Pixel::pink(), Pixel(255, 0, 255));
    assert_eq!(Pixel::cyan(), Pixel(0, 255, 255));
    assert_eq!(Pixel(255, 100, 9).div(10), Pixel(25, 10, 0));
}

fn c(v: f32) -> i32 {
    coord::from_bits(v.to_bits()).unwrap()
}

fn world(x1: f32, y1: f32, x2: f32, y2: f32) -> Rect {
    Rect { min: Point3::new(c(x1), c(y1), c(-7.0)), max: Point3::new(c(x2), c(y2), c(9.0)) }
}

#[test]
fn a_box_covers_the_pixels_its_corners_round_down_to() {
    let rect = world(1.2, 0.9, 3.999, 2.0);
    assert_eq!(PixelRect::of(&rect), PixelRect { x1: 1, y1: 0, x2: 3, y2: 2 });
    assert_eq!(
        PixelRect::of(&world(-5.0, f32::NEG_INFINITY, f32::INFINITY, 1.0e30)),
        PixelRect { x1: 0, y1: 0, x2: usize::MAX, y2: usize::MAX }
    );
}

#[test]
fn a_box_is_drawn_as_its_pixels() {
    let rect = world(1.2, 0.9, 3.999, 2.0);
    let mut canvas = Canvas::new(5, 4);
    canvas.draw(&rect, Pixel::splat(3));
    assert_eq!(
        rows(&canvas),
        vec![vec![0, 3, 3, 3, 0], vec![0, 3, 3, 3, 0], vec![0, 3, 3, 3, 0], vec![0, 0, 0, 0, 0]]
    );
    canvas.draw_outline(&rect, Pixel::splat(9));
    assert_eq!(
        rows(&canvas),
        vec![vec![0, 9, 9, 9, 0], vec![0, 9, 3, 9, 0], vec![0, 9, 9, 9, 0], vec![0, 0, 0, 0, 0]]
    );
    let mut same = Canvas::new(5, 4);
    same.draw(&PixelRect::of(&rect), Pixel::splat(3));
    same.draw_outline(&PixelRect::of(&rect), Pixel::splat(9));
    assert_eq!(same.flat_pixels(), canvas.flat_pixels());
}

#[test]
fn a_copy_is_equal_and_independent() {
    let mut canvas = Canvas::new(3, 2);
    canvas.set(2, 1, Pixel(1, 2, 3));
    let mut copy = canvas.clone();
    assert_eq!(copy.flat_pixels(), canvas.flat_pixels());
    assert_eq!((copy.width(), copy.height()), (3, 2));
    copy.set(0, 0, Pixel(9, 9, 9));
    assert_eq!(*canvas.get(0, 0), Pixel(0, 0, 0));
    assert_eq!(*copy.get(2, 1), Pixel(1, 2, 3));
}
