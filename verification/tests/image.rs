use pathtracer::color::append_decimal;
use pathtracer::color::quantize;
use pathtracer::color::Pixel;
use pathtracer::color::CEILING;
use pathtracer::math::rank::INFINITY;
use pathtracer::math::rank::ONE;
use pathtracer::rendering::image::Image;
use pathtracer::rendering::renderer::Renderer;
use pathtracer::rendering::renderer::NEAR_LIMIT;

fn rank(x: f64) -> i64 {
    if x.is_nan() {
        return i64::MIN;
    }
    let bits = x.to_bits() as i64;
    if bits >= 0 {
        bits
    } else {
        i64::MIN - bits
    }
}

fn gamma(channel: f64) -> f64 {
    if channel > 0.0 {
        channel.sqrt()
    } else {
        0.0
    }
}

/// One channel on its way out: gamma, then the level of the intensity.
fn level(channel: f64) -> u8 {
    quantize(rank(gamma(channel)))
}

/// The level of an intensity in real arithmetic: saturate, scale, cut off.
fn level_in_reals(intensity: f64) -> i32 {
    let saturated = if intensity < 0.0 {
        0.0
    } else if intensity > 0.999 {
        0.999
    } else {
        intensity
    };
    (256.0 * saturated) as i32
}

/// The doubles next to `x`, below and above.
fn neighbours(x: f64) -> [f64; 2] {
    [f64::from_bits(x.to_bits() - 1), f64::from_bits(x.to_bits() + 1)]
}

fn decimal(n: u32) -> String {
    let mut text = String::new();
    append_decimal(&mut text, n);
    text
}

#[test]
fn decimal_writes_numbers_as_format_does() {
    for n in [0u32, 1, 9, 10, 11, 99, 100, 101, 255, 256, 999, 1000, 65535, 4294967295] {
        assert_eq!(decimal(n), format!("{}", n));
    }
    for n in 0..2000u32 {
        assert_eq!(decimal(n), format!("{}", n));
    }
}

#[test]
fn decimal_appends_to_what_is_there() {
    let mut text = "width ".to_string();
    append_decimal(&mut text, 400);
    assert_eq!(text, "width 400");
    append_decimal(&mut text, 0);
    assert_eq!(text, "width 4000");
}

#[test]
fn pixel_writes_three_numbers() {
    assert_eq!(Pixel::new(255, 255, 255).write(), "255 255 255");
    assert_eq!(Pixel::new(0, 0, 0).write(), "0 0 0");
    assert_eq!(Pixel::new(7, 42, 130).write(), "7 42 130");
    let p = Pixel::new(1, 2, 3);
    assert_eq!((p.r, p.g, p.b), (1, 2, 3));
    let mut line = "> ".to_string();
    p.append_to(&mut line);
    assert_eq!(line, "> 1 2 3");
}

#[test]
fn ranks_of_the_limits_are_those_of_the_numbers() {
    assert_eq!(CEILING, rank(0.999));
    assert_eq!(ONE, rank(1.0));
    assert_eq!(INFINITY, rank(f64::INFINITY));
    assert_eq!(NEAR_LIMIT, rank(0.001));
    assert_eq!(-INFINITY, rank(f64::NEG_INFINITY));
    assert_eq!(-ONE, rank(-1.0));
}

#[test]
fn white_and_black_quantize_to_the_ends() {
    assert_eq!(level(1.0), 255);
    assert_eq!(level(0.0), 0);
    let white = Pixel::from_intensities(rank(gamma(1.0)), rank(gamma(1.0)), rank(gamma(1.0)));
    assert_eq!(white, Pixel::new(255, 255, 255));
    assert_eq!(white.write(), "255 255 255");
    let black = Pixel::from_intensities(rank(gamma(0.0)), rank(gamma(0.0)), rank(gamma(0.0)));
    assert_eq!(black, Pixel::new(0, 0, 0));
    assert_eq!(black.write(), "0 0 0");
    assert_eq!(level(0.25), 128);
    assert_eq!(level(-3.0), 0);
    assert_eq!(level(17.0), 255);
    assert_eq!(level(f64::INFINITY), 255);
    assert_eq!(level(f64::NAN), 0);
    assert_eq!(quantize(i64::MIN), 0);
    assert_eq!(quantize(i64::MAX), 255);
    assert_eq!(quantize(-1), 0);
    assert_eq!(quantize(0), 0);
    assert_eq!(quantize(CEILING), 255);
    assert_eq!(quantize(ONE), 255);
}

#[test]
fn pixel_takes_each_channel_from_its_own_intensity() {
    let p = Pixel::from_intensities(rank(0.5), rank(0.25), rank(0.125));
    assert_eq!(p, Pixel::new(128, 64, 32));
    let q = Pixel::from_intensities(rank(2.0), rank(-2.0), rank(0.7));
    assert_eq!(q, Pixel::new(255, 0, 179));
}

#[test]
fn quantization_never_goes_down_as_the_channel_goes_up() {
    let mut previous = level(-1.0);
    let mut seen = [false; 256];
    for step in 0..=40000 {
        let channel = -0.5 + (step as f64) / 20000.0;
        let q = level(channel);
        assert!(previous <= q, "{} after {} at {}", q, previous, channel);
        seen[q as usize] = true;
        previous = q;
    }
    assert!(seen.iter().all(|s| *s));
}

#[test]
fn levels_are_those_of_real_arithmetic() {
    // At every step from one level to the next, and right below and above it.
    for k in 1..=256 {
        let step = k as f64 / 256.0;
        assert_eq!(quantize(rank(step)) as i32, level_in_reals(step), "{}", step);
        for x in neighbours(step) {
            assert_eq!(quantize(rank(x)) as i32, level_in_reals(x), "{}", x);
        }
    }
    // At the ends of the range of intensities.
    for x in [0.0, -0.0, 5e-324, 2.2250738585072014e-308, 1e-300, 0.999, 1.0, 1e300] {
        assert_eq!(quantize(rank(x)) as i32, level_in_reals(x), "{}", x);
        assert_eq!(quantize(rank(-x)) as i32, level_in_reals(-x), "{}", -x);
    }
    for x in neighbours(0.999) {
        assert_eq!(quantize(rank(x)) as i32, level_in_reals(x), "{}", x);
    }
    // And all over the range.
    let mut x = 1.0e-5;
    while x < 1.5 {
        assert_eq!(quantize(rank(x)) as i32, level_in_reals(x), "{}", x);
        x *= 1.0001;
    }
    for step in 0..=100000 {
        let x = step as f64 / 100000.0;
        assert_eq!(quantize(rank(x)) as i32, level_in_reals(x), "{}", x);
    }
}

#[test]
fn new_image_waits_for_its_first_pixel() {
    let image = Image::new(3, 2);
    assert_eq!(image.width(), 3);
    assert_eq!(image.height(), 2);
    assert!(image.pixels().is_empty());
    assert_eq!(image.next_pixel(), Some((0, 0)));
}

#[test]
fn pixels_are_due_row_by_row_from_the_top_left() {
    let mut image = Image::new(3, 2);
    let mut order = Vec::new();
    while let Some((i, j)) = image.next_pixel() {
        order.push((i, j));
        image.add_pixel(Pixel::new(i as u8, j as u8, 0));
    }
    assert_eq!(order, vec![(0, 0), (1, 0), (2, 0), (0, 1), (1, 1), (2, 1)]);
    assert_eq!(image.pixels().len(), 6);
    assert_eq!(image.next_pixel(), None);
    for j in 0..2usize {
        for i in 0..3usize {
            assert_eq!(image.pixels()[j * 3 + i], Pixel::new(i as u8, j as u8, 0));
        }
    }
}

#[test]
fn image_without_area_is_complete_at_once() {
    assert_eq!(Image::new(0, 0).next_pixel(), None);
    assert_eq!(Image::new(0, 5).next_pixel(), None);
    assert_eq!(Image::new(5, 0).next_pixel(), None);
    assert_eq!(Image::new(0, 5).write_ppm(), "P3\n0 5\n255\n");
}

#[test]
fn large_image_sizes_do_not_overflow() {
    let image = Image::new(u32::MAX, u32::MAX);
    assert_eq!(image.next_pixel(), Some((0, 0)));
    assert_eq!(image.write_ppm(), "P3\n4294967295 4294967295\n255\n");
}

#[test]
fn ppm_has_a_head_and_one_line_for_each_pixel() {
    let mut image = Image::new(2, 2);
    image.add_pixel(Pixel::new(255, 0, 0));
    image.add_pixel(Pixel::new(0, 255, 0));
    image.add_pixel(Pixel::new(0, 0, 255));
    image.add_pixel(Pixel::new(12, 34, 56));
    assert_eq!(image.write_ppm(), "P3\n2 2\n255\n255 0 0\n0 255 0\n0 0 255\n12 34 56\n");
}

#[test]
fn ppm_of_an_image_in_the_making_has_the_lines_so_far() {
    let mut image = Image::new(400, 225);
    assert_eq!(image.write_ppm(), "P3\n400 225\n255\n");
    image.add_pixel(Pixel::new(1, 2, 3));
    assert_eq!(image.write_ppm(), "P3\n400 225\n255\n1 2 3\n");
}

#[test]
fn ppm_has_three_lines_and_one_more_for_each_pixel() {
    let mut image = Image::new(17, 9);
    while let Some((i, j)) = image.next_pixel() {
        image.add_pixel(Pixel::new((i * 15) as u8, (j * 28) as u8, 200));
    }
    let text = image.write_ppm();
    assert_eq!(text.matches('\n').count(), 3 + 17 * 9);
    assert!(text.ends_with('\n'));
    let lines: Vec<&str> = text.lines().collect();
    assert_eq!(lines.len(), 3 + 17 * 9);
    assert_eq!(&lines[..3], ["P3", "17 9", "255"]);
    for (k, line) in lines[3..].iter().enumerate() {
        let numbers: Vec<u32> = line.split(' ').map(|n| n.parse().unwrap()).collect();
        assert_eq!(numbers, vec![(k as u32 % 17) * 15, (k as u32 / 17) * 28, 200]);
    }
}

#[test]
fn renderer_keeps_what_it_is_made_with() {
    let renderer = Renderer::new(100, 50);
    assert_eq!(renderer.samples_per_pixel(), 100);
    assert_eq!(renderer.max_bounces(), 50);
}

#[test]
fn bounce_budget_runs_out() {
    assert_eq!(Renderer::bounce(0), None);
    assert_eq!(Renderer::bounce(1), Some(0));
    assert_eq!(Renderer::bounce(50), Some(49));
    assert_eq!(Renderer::bounce(u32::MAX), Some(u32::MAX - 1));
    let renderer = Renderer::new(1, 3);
    let mut left = renderer.max_bounces();
    let mut surfaces = 0;
    while let Some(rest) = Renderer::bounce(left) {
        surfaces += 1;
        left = rest;
    }
    assert_eq!(surfaces, 3);
}

#[test]
fn render_makes_the_pixels_row_by_row_and_sample_by_sample() {
    let renderer = Renderer::new(3, 10);
    let (samples, rows, image) = renderer.render_with(
        4,
        2,
        Vec::new(),
        Vec::new(),
        0u32,
        |mut log: Vec<(u32, u32, u32)>, i, j, taken| {
            log.push((i, j, taken));
            (log, taken + 1)
        },
        &|taken| Pixel::new(taken as u8, 0, 0),
        &|mut rows: Vec<u32>, row| {
            rows.push(row);
            rows
        },
    );
    assert_eq!((image.width(), image.height()), (4, 2));
    assert_eq!(image.pixels(), &vec![Pixel::new(3, 0, 0); 8]);
    assert_eq!(image.next_pixel(), None);
    assert_eq!(rows, vec![0, 1]);
    let mut expected = Vec::new();
    for j in 0..2 {
        for i in 0..4 {
            for taken in 0..3 {
                expected.push((i, j, taken));
            }
        }
    }
    assert_eq!(samples, expected);
}

#[test]
fn render_reports_each_row_when_its_last_pixel_is_made() {
    let renderer = Renderer::new(2, 1);
    // The state counts the samples; a report notes the row and the samples
    // taken by then.
    let counted = std::cell::Cell::new(0u32);
    let (taken, reports, _) = renderer.render_with(
        3,
        4,
        0u32,
        Vec::new(),
        (),
        |taken: u32, _, _, _| {
            counted.set(taken + 1);
            (taken + 1, ())
        },
        &|_| Pixel::new(0, 0, 0),
        &|mut reports: Vec<(u32, u32)>, row| {
            reports.push((row, counted.get()));
            reports
        },
    );
    assert_eq!(taken, 24);
    assert_eq!(reports, vec![(0, 6), (1, 12), (2, 18), (3, 24)]);
}

#[test]
fn render_hands_the_state_from_each_sample_to_the_next() {
    let renderer = Renderer::new(2, 1);
    let (drawn, _, image) = renderer.render_with(
        3,
        2,
        0u32,
        (),
        0u32,
        |drawn, _, _, sum| (drawn + 1, sum + drawn),
        &|sum| Pixel::new(sum as u8, 0, 0),
        &|_, _| (),
    );
    assert_eq!(drawn, 12);
    let reds: Vec<u8> = image.pixels().iter().map(|p| p.r).collect();
    assert_eq!(reds, vec![0 + 1, 2 + 3, 4 + 5, 6 + 7, 8 + 9, 10 + 11]);
}

#[test]
fn render_puts_each_pixel_in_its_place() {
    let renderer = Renderer::new(1, 1);
    let (_, _, image) = renderer.render_with(
        5,
        3,
        (),
        (),
        (0u32, 0u32),
        |_, i, j, _| ((), (i, j)),
        &|at| Pixel::new(at.0 as u8, at.1 as u8, 7),
        &|_, _| (),
    );
    for j in 0..3u32 {
        for i in 0..5u32 {
            assert_eq!(image.pixels()[(j * 5 + i) as usize], Pixel::new(i as u8, j as u8, 7));
        }
    }
}

#[test]
fn render_without_samples_finishes_what_it_starts_with() {
    let renderer = Renderer::new(0, 1);
    let (called, rows, image) = renderer.render_with(
        2,
        2,
        false,
        0u32,
        9u8,
        |_, _, _, c| (true, c),
        &|c| Pixel::new(c, c, c),
        &|rows, _| rows + 1,
    );
    assert!(!called);
    assert_eq!(rows, 2);
    assert_eq!(image.pixels(), &vec![Pixel::new(9, 9, 9); 4]);
}

#[test]
fn render_of_no_area_makes_nothing() {
    let renderer = Renderer::new(4, 4);
    let (state, rows, image) = renderer.render_with(
        0,
        3,
        5u8,
        0u32,
        0u8,
        |s, _, _, c| (s, c),
        &|c| Pixel::new(c, c, c),
        &|rows, _| rows + 1,
    );
    assert!(image.pixels().is_empty());
    assert_eq!(rows, 0);
    assert_eq!(state, 5);
    assert_eq!(image.write_ppm(), "P3\n0 3\n255\n");
    let (_, rows, flat) = renderer.render_with(
        3,
        0,
        5u8,
        0u32,
        0u8,
        |s, _, _, c| (s, c),
        &|c| Pixel::new(c, c, c),
        &|rows, _| rows + 1,
    );
    assert!(flat.pixels().is_empty());
    assert_eq!(rows, 0);
}
