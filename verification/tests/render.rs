use fractals::color::color;
use fractals::escape::{evaluate, Evaluator};
use fractals::frame::Frame;
use fractals::grid::{Grid, Pixel};
use fractals::render::render;
use fractals::variant::{Mapping, Variant};

const SCALE: f64 = 0.005;
const PARAM_R: f64 = 1.5;
const PARAM_I: f64 = 1.5;
const CXMIN: f64 = -2.0;
const CXMAX: f64 = 0.5;
const CYMIN: f64 = -1.0;
const CYMAX: f64 = 1.0;

#[derive(Clone, Copy, Debug, PartialEq)]
struct Complex {
    real: f64,
    imaginary: f64,
}

impl Complex {
    fn square(self) -> Complex {
        Complex {
            real: self.real * self.real - self.imaginary * self.imaginary,
            imaginary: 2.0 * self.real * self.imaginary,
        }
    }

    fn norm_squared(self) -> f64 {
        self.real * self.real + self.imaginary * self.imaginary
    }

    fn absolute(self) -> Complex {
        Complex { real: self.real.abs(), imaginary: self.imaginary.abs() }
    }

    fn plus(self, other: Complex) -> Complex {
        Complex { real: self.real + other.real, imaginary: self.imaginary + other.imaginary }
    }
}

fn map_point(mapping: Mapping, width: i32, height: i32, x: i32, y: i32) -> Complex {
    match mapping {
        Mapping::CenteredSymmetric => Complex {
            real: y as f64 * SCALE - PARAM_R,
            imaginary: x as f64 * SCALE - PARAM_I,
        },
        Mapping::BoundingBox => Complex {
            real: (CXMIN + x as f64) / (width as f64 - 1.0) * (CXMAX - CXMIN),
            imaginary: (CYMIN + y as f64) / (height as f64 - 1.0) * (CYMAX - CYMIN),
        },
    }
}

/// Evaluates one orbit with the library's loop.
fn escape_time(variant: Variant, seed: Complex, added: Complex, cutoff: u32) -> u32 {
    let escaped = |z: &Complex| z.norm_squared() > 2.0;
    if variant.folds() {
        evaluate(seed, cutoff, escaped, |z: Complex| z.absolute().square().plus(added))
    } else {
        evaluate(seed, cutoff, escaped, |z: Complex| z.square().plus(added))
    }
}

/// Evaluates one orbit step by step, reporting to the library's evaluator.
fn escape_time_stepwise(variant: Variant, seed: Complex, added: Complex, cutoff: u32) -> u32 {
    let mut z = seed;
    let mut evaluator = Evaluator::start(cutoff);
    while !evaluator.is_done() {
        if evaluator.step(z.norm_squared() > 2.0) {
            let folded = if variant.folds() { z.absolute() } else { z };
            z = folded.square().plus(added);
        }
    }
    evaluator.count()
}

fn pixel_count(variant: Variant, grid: Grid, pixel: Pixel, constant: Complex, cutoff: u32) -> u32 {
    let point = map_point(variant.mapping(), grid.width(), grid.height(), pixel.x, pixel.y);
    let (seed, added) = variant.roles(point, constant);
    escape_time(variant, seed, added, cutoff)
}

/// Renders a whole picture with the library's loop.
fn draw(name: &str, width: i32, height: i32, real: f64, imaginary: f64, cutoff: u32) -> Option<Frame> {
    let variant = Variant::from_name(name)?;
    let grid = Grid::new(width, height)?;
    let constant = Complex { real, imaginary };
    Some(render(variant, grid, cutoff, |pixel| pixel_count(variant, grid, pixel, constant, cutoff)))
}

/// Renders a whole picture pixel by pixel, handing each count to the frame.
fn draw_stepwise(name: &str, width: i32, height: i32, real: f64, imaginary: f64, cutoff: u32) -> Option<Frame> {
    let variant = Variant::from_name(name)?;
    let grid = Grid::new(width, height)?;
    let constant = Complex { real, imaginary };
    let mut frame = Frame::new(variant, grid, cutoff);
    while let Some(pixel) = frame.next_pixel() {
        let point = map_point(variant.mapping(), grid.width(), grid.height(), pixel.x, pixel.y);
        let (seed, added) = variant.roles(point, constant);
        let count = escape_time_stepwise(variant, seed, added, cutoff);
        assert!(frame.paint(count));
    }
    Some(frame)
}

/// The same picture made by two nested loops with a loop of its own for each
/// orbit, pushing byte after byte.
fn nested_loops(variant: Variant, width: i32, height: i32, real: f64, imaginary: f64, cutoff: u32) -> Vec<u8> {
    let constant = Complex { real, imaginary };
    let mut data: Vec<u8> = Vec::new();
    for x in -width..width {
        for y in -height..height {
            let (mut z, added) = match variant {
                Variant::Julia => (
                    Complex { real: y as f64 * 0.005 - 1.5, imaginary: x as f64 * 0.005 - 1.5 },
                    constant,
                ),
                _ => (
                    constant,
                    Complex {
                        real: (-2.0 + x as f64) / (width as f64 - 1.0) * (0.5 - -2.0),
                        imaginary: (-1.0 + y as f64) / (height as f64 - 1.0) * (1.0 - -1.0),
                    },
                ),
            };
            let mut bound: u32 = 0;
            while bound < cutoff {
                if z.norm_squared() > 2.0 {
                    break;
                }
                if variant == Variant::BurningShip {
                    z = z.absolute();
                }
                z = z.square().plus(added);
                bound += 1;
            }
            match variant {
                Variant::Julia => {
                    data.push((bound / 4) as u8);
                    data.push((bound / 2) as u8);
                    data.push(bound as u8);
                    data.push(255);
                }
                Variant::Mandelbrot if bound != cutoff => {
                    data.push((bound % 8 * 32) as u8);
                    data.push(((bound * 3) % 256) as u8);
                    data.push((bound % 256) as u8);
                    data.push(255);
                }
                Variant::BurningShip if bound != cutoff => {
                    data.push((bound % 4 * 64) as u8);
                    data.push((bound % 8 * 32) as u8);
                    data.push((bound % 16 * 8) as u8);
                    data.push(255);
                }
                _ => {
                    data.extend_from_slice(&[0, 0, 0, 255]);
                }
            }
        }
    }
    data
}

#[test]
fn julia_four_by_four_is_256_opaque_bytes() {
    let frame = draw("julia", 4, 4, 0.0, 0.0, 50).unwrap();
    assert!(frame.is_complete());
    assert_eq!(frame.width(), 8);
    assert_eq!(frame.height(), 8);
    let bytes = frame.into_bytes();
    assert_eq!(bytes.len(), 256);
    for pixel in bytes.chunks(4) {
        assert_eq!(pixel[3], 255);
    }
}

#[test]
fn julia_four_by_four_bytes() {
    // Every sampled point lies within 0.02 of (-1.5, -1.5), whose squared
    // magnitude is 4.5: each orbit has escaped at its start.
    let bytes = draw("julia", 4, 4, 0.0, 0.0, 50).unwrap().into_bytes();
    assert_eq!(bytes, [0u8, 0, 0, 255].repeat(64));
}

#[test]
fn an_unknown_variant_renders_nothing() {
    assert!(draw("unknown", 10, 10, 0.0, 0.0, 10).is_none());
}

#[test]
fn a_fresh_frame_is_empty() {
    let grid = Grid::new(3, 2).unwrap();
    let frame = Frame::new(Variant::Mandelbrot, grid, 9);
    assert_eq!(frame.variant(), Variant::Mandelbrot);
    assert_eq!(frame.cutoff(), 9);
    assert_eq!(frame.grid().width(), 3);
    assert_eq!(frame.grid().height(), 2);
    assert_eq!(frame.width(), 6);
    assert_eq!(frame.height(), 4);
    assert!(!frame.is_complete());
    assert_eq!(frame.next_pixel(), Some(Pixel { x: -3, y: -2 }));
    assert!(frame.as_bytes().is_empty());
}

#[test]
fn painting_appends_the_colour_and_moves_on() {
    let grid = Grid::new(2, 2).unwrap();
    let mut frame = Frame::new(Variant::Mandelbrot, grid, 50);
    assert!(frame.paint(5));
    assert_eq!(frame.as_bytes(), &[160u8, 15, 5, 255][..]);
    assert_eq!(frame.next_pixel(), Some(Pixel { x: -2, y: -1 }));
    assert!(frame.paint(50));
    assert_eq!(frame.as_bytes(), &[160u8, 15, 5, 255, 0, 0, 0, 255][..]);
    assert_eq!(frame.next_pixel(), Some(Pixel { x: -2, y: 0 }));
    assert!(frame.paint(7));
    assert!(frame.paint(8));
    assert_eq!(frame.next_pixel(), Some(Pixel { x: -1, y: -2 }));
}

#[test]
fn a_complete_frame_takes_no_more() {
    let grid = Grid::new(2, 2).unwrap();
    let mut frame = Frame::new(Variant::Julia, grid, 50);
    for count in 0..16u32 {
        assert!(!frame.is_complete());
        assert!(frame.paint(count));
    }
    assert!(frame.is_complete());
    assert_eq!(frame.next_pixel(), None);
    let before = frame.as_bytes().to_vec();
    assert!(!frame.paint(3));
    assert_eq!(frame.as_bytes(), &before[..]);
    assert_eq!(before.len(), 64);
}

#[test]
fn bytes_are_the_colours_of_the_counts_in_order() {
    let grid = Grid::new(2, 3).unwrap();
    for variant in [Variant::Julia, Variant::Mandelbrot, Variant::BurningShip] {
        let mut frame = Frame::new(variant, grid, 20);
        let mut expected: Vec<u8> = Vec::new();
        let mut count = 0u32;
        while frame.next_pixel().is_some() {
            frame.paint(count);
            expected.extend_from_slice(&color(variant, count, 20).to_bytes());
            count += 1;
        }
        assert_eq!(count, 24);
        assert_eq!(frame.into_bytes(), expected);
    }
}

#[test]
fn a_pixel_stands_at_four_times_its_index() {
    let grid = Grid::new(3, 2).unwrap();
    let mut frame = Frame::new(Variant::Julia, grid, 1000);
    while let Some(pixel) = frame.next_pixel() {
        // A count that tells the position: 100 for each step of x, 1 for each of y.
        frame.paint(((pixel.x + 3) * 100 + (pixel.y + 2)) as u32);
    }
    let bytes = frame.into_bytes();
    for x in -3..3 {
        for y in -2..2 {
            let at = 4 * grid.index_of(Pixel { x, y }).unwrap();
            let count = ((x + 3) * 100 + (y + 2)) as u32;
            assert_eq!(&bytes[at..at + 4], &color(Variant::Julia, count, 1000).to_bytes()[..]);
        }
    }
}

#[test]
fn frame_length_is_four_bytes_for_each_pixel() {
    for (width, height) in [(2, 2), (2, 5), (7, 3), (10, 10)] {
        for name in ["julia", "mandel", "ship"] {
            let frame = draw(name, width, height, -0.4, 0.6, 12).unwrap();
            let (w, h) = (frame.width() as usize, frame.height() as usize);
            assert_eq!(w, 2 * width as usize);
            assert_eq!(h, 2 * height as usize);
            assert_eq!(frame.into_bytes().len(), 4 * w * h);
        }
    }
}

#[test]
fn julia_matches_nested_loops() {
    // A grid large enough to reach points whose orbits do not escape at once.
    let bytes = draw("julia", 160, 150, -0.4, 0.6, 60).unwrap().into_bytes();
    assert_eq!(bytes, nested_loops(Variant::Julia, 160, 150, -0.4, 0.6, 60));
    assert!(bytes.chunks(4).any(|pixel| pixel[2] != 0));
}

#[test]
fn mandelbrot_matches_nested_loops() {
    let bytes = draw("mandel", 12, 9, 0.0, 0.0, 40).unwrap().into_bytes();
    assert_eq!(bytes, nested_loops(Variant::Mandelbrot, 12, 9, 0.0, 0.0, 40));
    assert!(bytes.chunks(4).any(|pixel| pixel[..3] != [0, 0, 0]));
    let seeded = draw("mandel", 12, 9, 0.3, -0.2, 40).unwrap().into_bytes();
    assert_eq!(seeded, nested_loops(Variant::Mandelbrot, 12, 9, 0.3, -0.2, 40));
}

#[test]
fn burning_ship_matches_nested_loops() {
    let bytes = draw("ship", 12, 9, 0.0, 0.0, 40).unwrap().into_bytes();
    assert_eq!(bytes, nested_loops(Variant::BurningShip, 12, 9, 0.0, 0.0, 40));
    assert!(bytes.chunks(4).any(|pixel| pixel[..3] != [0, 0, 0]));
    let seeded = draw("ship", 9, 12, -0.5, 0.25, 33).unwrap().into_bytes();
    assert_eq!(seeded, nested_loops(Variant::BurningShip, 9, 12, -0.5, 0.25, 33));
}

#[test]
fn the_ship_differs_from_mandelbrot() {
    let mandel = draw("mandel", 12, 9, 0.0, 0.0, 40).unwrap().into_bytes();
    let ship = draw("ship", 12, 9, 0.0, 0.0, 40).unwrap().into_bytes();
    assert_ne!(mandel, ship);
}

#[test]
fn rendering_twice_gives_the_same_bytes() {
    for name in ["julia", "mandel", "ship"] {
        let first = draw(name, 9, 7, -0.7, 0.27015, 80).unwrap().into_bytes();
        let second = draw(name, 9, 7, -0.7, 0.27015, 80).unwrap().into_bytes();
        assert_eq!(first, second);
    }
}

#[test]
fn counts_stay_within_the_cutoff() {
    let grid = Grid::new(8, 8).unwrap();
    let constant = Complex { real: 0.0, imaginary: 0.0 };
    for variant in [Variant::Julia, Variant::Mandelbrot, Variant::BurningShip] {
        for cutoff in [0u32, 1, 2, 17, 100] {
            for index in 0..grid.pixel_count() {
                let pixel = grid.pixel_at(index).unwrap();
                assert!(pixel_count(variant, grid, pixel, constant, cutoff) <= cutoff);
            }
        }
    }
}

#[test]
fn a_longer_evaluation_never_counts_less() {
    let grid = Grid::new(8, 8).unwrap();
    let constant = Complex { real: 0.1, imaginary: -0.1 };
    for variant in [Variant::Julia, Variant::Mandelbrot, Variant::BurningShip] {
        for index in 0..grid.pixel_count() {
            let pixel = grid.pixel_at(index).unwrap();
            let mut last = 0u32;
            for cutoff in [0u32, 1, 2, 3, 5, 8, 13, 40, 100] {
                let count = pixel_count(variant, grid, pixel, constant, cutoff);
                assert!(count >= last);
                last = count;
            }
        }
    }
}

#[test]
fn the_origin_never_escapes() {
    let origin = Complex { real: 0.0, imaginary: 0.0 };
    for cutoff in [0u32, 1, 10, 1000, 100_000] {
        assert_eq!(escape_time(Variant::Mandelbrot, origin, origin, cutoff), cutoff);
    }
}

#[test]
fn a_far_point_escapes_at_once() {
    let far = Complex { real: 3.0, imaginary: 0.0 };
    let origin = Complex { real: 0.0, imaginary: 0.0 };
    assert_eq!(escape_time(Variant::Julia, far, origin, 50), 0);
    // From the origin with 3 added each step: 0, then 3, which has escaped.
    assert_eq!(escape_time(Variant::Mandelbrot, origin, far, 50), 1);
}

#[test]
fn the_escape_test_is_on_the_squared_magnitude() {
    let origin = Complex { real: 0.0, imaginary: 0.0 };
    // 1.2 squared is 1.44, within 2; one step on it is 2.0736, beyond.
    assert_eq!(escape_time(Variant::Julia, Complex { real: 1.2, imaginary: 0.0 }, origin, 50), 1);
    // 1.5 squared is 2.25, beyond 2 although the magnitude is below 2.
    assert_eq!(escape_time(Variant::Julia, Complex { real: 1.5, imaginary: 0.0 }, origin, 50), 0);
}

#[test]
fn the_ship_folds_before_squaring() {
    let seed = Complex { real: 0.5, imaginary: -0.5 };
    let added = Complex { real: 0.0, imaginary: -1.0 };
    // Unfolded: (0.5, -0.5) -> (0, -1.5), which has escaped: one step.
    assert_eq!(escape_time(Variant::Mandelbrot, seed, added, 50), 1);
    // Folded: (0.5, -0.5) -> (0, -0.5) -> (-0.25, -1) -> (-0.9375, -0.5)
    // -> (0.62890625, -0.0625), none of which has escaped.
    assert!(escape_time(Variant::BurningShip, seed, added, 50) > 4);
}

#[test]
fn mandelbrot_interior_is_black() {
    let grid = Grid::new(12, 9).unwrap();
    let constant = Complex { real: 0.0, imaginary: 0.0 };
    for (name, variant) in [("mandel", Variant::Mandelbrot), ("ship", Variant::BurningShip)] {
        let bytes = draw(name, 12, 9, 0.0, 0.0, 25).unwrap().into_bytes();
        let mut interior = 0usize;
        for index in 0..grid.pixel_count() {
            let pixel = grid.pixel_at(index).unwrap();
            if pixel_count(variant, grid, pixel, constant, 25) == 25 {
                assert_eq!(&bytes[4 * index..4 * index + 4], &[0u8, 0, 0, 255][..]);
                interior += 1;
            }
        }
        assert!(interior > 0);
    }
}

#[test]
fn a_zero_cutoff_paints_every_count_zero() {
    let julia = draw("julia", 3, 3, 0.0, 0.0, 0).unwrap().into_bytes();
    assert_eq!(julia, [0u8, 0, 0, 255].repeat(36));
    let mandel = draw("mandel", 3, 3, 0.0, 0.0, 0).unwrap().into_bytes();
    assert_eq!(mandel, [0u8, 0, 0, 255].repeat(36));
}

#[test]
fn extents_below_two_render_nothing() {
    assert!(draw("mandel", 1, 10, 0.0, 0.0, 10).is_none());
    assert!(draw("julia", 10, 0, 0.0, 0.0, 10).is_none());
}

#[test]
fn the_loops_agree_with_stepwise_use() {
    for name in ["julia", "mandel", "ship"] {
        let looped = draw(name, 11, 8, 0.2, -0.3, 30).unwrap().into_bytes();
        let stepwise = draw_stepwise(name, 11, 8, 0.2, -0.3, 30).unwrap().into_bytes();
        assert_eq!(looped, stepwise);
    }
}

#[test]
fn render_visits_every_position_once_in_order() {
    let grid = Grid::new(3, 2).unwrap();
    let visited = std::cell::RefCell::new(Vec::new());
    let frame = render(Variant::Julia, grid, 9, |pixel| {
        visited.borrow_mut().push(pixel);
        0
    });
    assert!(frame.is_complete());
    let mut expected = Vec::new();
    for x in -3..3 {
        for y in -2..2 {
            expected.push(Pixel { x, y });
        }
    }
    assert_eq!(visited.into_inner(), expected);
}

#[test]
fn render_colours_what_the_count_function_gives() {
    let grid = Grid::new(2, 2).unwrap();
    let frame = render(Variant::BurningShip, grid, 6, |pixel| (pixel.x + 2) as u32 * 4 + (pixel.y + 2) as u32);
    assert_eq!(frame.variant(), Variant::BurningShip);
    assert_eq!(frame.cutoff(), 6);
    let mut expected: Vec<u8> = Vec::new();
    for count in 0..16u32 {
        expected.extend_from_slice(&color(Variant::BurningShip, count, 6).to_bytes());
    }
    assert_eq!(frame.into_bytes(), expected);
}

#[test]
fn evaluate_applies_the_recurrence_once_for_each_count() {
    let applied = std::cell::Cell::new(0u32);
    let tested = std::cell::Cell::new(0u32);
    let count = evaluate(
        0u32,
        50,
        |z: &u32| {
            tested.set(tested.get() + 1);
            *z >= 7
        },
        |z: u32| {
            applied.set(applied.get() + 1);
            z + 1
        },
    );
    assert_eq!(count, 7);
    assert_eq!(applied.get(), 7);
    assert_eq!(tested.get(), 8);
}

#[test]
fn evaluate_stops_at_the_cutoff() {
    assert_eq!(evaluate(0u32, 5, |z: &u32| *z >= 7, |z: u32| z + 1), 5);
    assert_eq!(evaluate(0u32, 7, |z: &u32| *z >= 7, |z: u32| z + 1), 7);
    assert_eq!(evaluate(0u32, 8, |z: &u32| *z >= 7, |z: u32| z + 1), 7);
    assert_eq!(evaluate(0u32, 0, |_: &u32| true, |z: u32| z + 1), 0);
    assert_eq!(evaluate(9u32, 3, |z: &u32| *z >= 7, |z: u32| z + 1), 0);
}

#[test]
fn the_pixel_mapped_to_the_origin_is_interior() {
    // Position (2, 1) is mapped to (-2 + 2) / (W - 1) * 2.5 = 0 and
    // (-1 + 1) / (H - 1) * 2 = 0; from a constant of zero its orbit stays at
    // zero.
    let grid = Grid::new(4, 4).unwrap();
    let origin = Complex { real: 0.0, imaginary: 0.0 };
    let pixel = Pixel { x: 2, y: 1 };
    assert_eq!(map_point(Mapping::BoundingBox, 4, 4, 2, 1), origin);
    for (name, variant) in [("mandel", Variant::Mandelbrot), ("ship", Variant::BurningShip)] {
        for cutoff in [1u32, 50, 1037] {
            assert_eq!(pixel_count(variant, grid, pixel, origin, cutoff), cutoff);
            let bytes = draw(name, 4, 4, 0.0, 0.0, cutoff).unwrap().into_bytes();
            let at = 4 * grid.index_of(pixel).unwrap();
            assert_eq!(&bytes[at..at + 4], &[0u8, 0, 0, 255][..]);
        }
    }
}
