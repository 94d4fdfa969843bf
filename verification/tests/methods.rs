//! The method surface of `IconCaptcha`, exercised directly.

use iconcaptcha_solver::orbit::{duplicate, mirror, orbit};
use iconcaptcha_solver::pixel::{Pixel, PixelBuffer};
use iconcaptcha_solver::segment::find_spans;
use iconcaptcha_solver::IconCaptcha;

fn blank() -> Pixel {
    Pixel { r: 0, g: 0, b: 0, a: 0 }
}

fn delim() -> Pixel {
    Pixel { r: 240, g: 240, b: 240, a: 255 }
}

fn ink() -> Pixel {
    Pixel { r: 50, g: 60, b: 70, a: 200 }
}

fn buf(rows: Vec<Vec<Pixel>>) -> PixelBuffer {
    let height = rows.len() as u32;
    let width = rows[0].len() as u32;
    match PixelBuffer::from_rows(width, height, rows) {
        Some(b) => b,
        None => panic!("rows do not form a rectangle"),
    }
}

fn same(a: &PixelBuffer, b: &PixelBuffer) -> bool {
    a.width == b.width && a.height == b.height && a.rows == b.rows
}

/// A strip with near-white delimiters at columns 4 and 9 and one dot per
/// span.
fn dotted_strip() -> PixelBuffer {
    let w = 14;
    let mut rows = vec![vec![blank(); w], vec![blank(); w]];
    rows[0][4] = delim();
    rows[0][9] = delim();
    rows[0][1] = ink();
    rows[1][6] = ink();
    rows[0][11] = ink();
    buf(rows)
}

#[test]
fn pixel_get_reads_the_grid() {
    let img = dotted_strip();
    assert_eq!(img.get(4, 0), delim());
    assert_eq!(img.get(1, 0), ink());
    assert_eq!(img.get(0, 1), blank());
}

#[test]
fn near_white_pixels_are_delimiters_too() {
    let img = dotted_strip();
    let found = find_spans(&img).unwrap();
    assert_eq!(found.len(), 3);
    assert_eq!(found[0].start, 1);
    assert_eq!(found[0].end, 3);
    assert_eq!(found[1].start, 5);
    assert_eq!(found[1].end, 8);
    assert_eq!(found[2].start, 10);
    assert_eq!(found[2].end, 13);
}

#[test]
fn get_positions_matches_the_segmenter() {
    let captcha = IconCaptcha::new(dotted_strip());
    let by_method = captcha.get_positions().unwrap();
    let directly = find_spans(&captcha.img).unwrap();
    assert_eq!(by_method, directly);
}

#[test]
fn cropped_extracts_one_silhouette_per_span() {
    let captcha = IconCaptcha::new(dotted_strip());
    let spans = captcha.get_positions().unwrap();
    let silhs = captcha.cropped(&spans).unwrap();
    assert_eq!(silhs.len(), 3);
    // each span holds a single dot, so each silhouette is a 1x1 buffer
    // holding that opaque pixel
    for s in &silhs {
        assert!(same(s, &buf(vec![vec![ink()]])));
    }
}

#[test]
fn reflect_image_mirrors_each_buffer() {
    let captcha = IconCaptcha::new(dotted_strip());
    let a = buf(vec![vec![ink(), blank()]]);
    let b = buf(vec![vec![blank(), ink(), ink()]]);
    let mirrored = captcha.reflect_image(vec![duplicate(&a), duplicate(&b)]);
    assert_eq!(mirrored.len(), 2);
    assert!(same(&mirrored[0], &mirror(&a)));
    assert!(same(&mirrored[1], &mirror(&b)));
}

#[test]
fn rotate_method_yields_the_orbit() {
    let captcha = IconCaptcha::new(dotted_strip());
    let s = buf(vec![vec![ink(), blank()], vec![ink(), ink()]]);
    let by_method = captcha.rotate(&s);
    let directly = orbit(&s);
    assert_eq!(by_method.len(), 8);
    for (m, d) in by_method.iter().zip(directly.iter()) {
        assert!(same(m, d));
    }
}
