//! End-to-end behavior of the solver on hand-built pixel strips.

use iconcaptcha_solver::error::CaptchaError;
use iconcaptcha_solver::pixel::Pixel;
use iconcaptcha_solver::pixel::PixelBuffer;
use iconcaptcha_solver::segment::find_spans;
use iconcaptcha_solver::segment::Icon;
use iconcaptcha_solver::IconCaptcha;

fn blank() -> Pixel {
    Pixel { r: 0, g: 0, b: 0, a: 0 }
}

fn delim() -> Pixel {
    Pixel { r: 64, g: 64, b: 64, a: 255 }
}

fn ink() -> Pixel {
    Pixel { r: 10, g: 20, b: 30, a: 255 }
}

fn buf(rows: Vec<Vec<Pixel>>) -> PixelBuffer {
    let height = rows.len() as u32;
    let width = rows[0].len() as u32;
    match PixelBuffer::from_rows(width, height, rows) {
        Some(b) => b,
        None => panic!("rows do not form a rectangle"),
    }
}

/// A 17-column strip: delimiters at columns 5 and 11, an L-shaped icon in
/// the first span, its quarter-turn rotation in the second, and a full
/// square in the third. The square has no rotated or mirrored duplicate,
/// so span 3 is the outlier.
fn sample_strip() -> PixelBuffer {
    let w = 17;
    let mut rows = vec![vec![blank(); w], vec![blank(); w], vec![blank(); w]];
    rows[0][5] = delim();
    rows[0][11] = delim();
    // span 1, columns 1..=4: L shape at columns 1-2, rows 0-1
    rows[0][1] = ink();
    rows[1][1] = ink();
    rows[1][2] = ink();
    // span 2, columns 6..=10: the L rotated a quarter turn clockwise
    rows[0][6] = ink();
    rows[0][7] = ink();
    rows[1][6] = ink();
    // span 3, columns 12..=16: a full 2x2 square
    rows[0][12] = ink();
    rows[0][13] = ink();
    rows[1][12] = ink();
    rows[1][13] = ink();
    buf(rows)
}

#[test]
fn segmenter_exact_spans() {
    let img = sample_strip();
    let spans = find_spans(&img).unwrap();
    let expected = vec![
        Icon { position: 1, start: 1, end: 4, center_x: 1, center_y: 1 },
        Icon { position: 2, start: 6, end: 10, center_x: 7, center_y: 1 },
        Icon { position: 3, start: 12, end: 16, center_x: 13, center_y: 1 },
    ];
    assert_eq!(spans, expected);
}

#[test]
fn segmenter_spans_disjoint_sorted_and_counted() {
    let img = sample_strip();
    let spans = find_spans(&img).unwrap();
    // two delimiter columns yield three spans
    assert_eq!(spans.len(), 3);
    for (i, s) in spans.iter().enumerate() {
        assert_eq!(s.position as usize, i + 1);
        assert!(s.start < s.end);
        assert!(s.start <= s.center_x && s.center_x <= s.end);
    }
    for pair in spans.windows(2) {
        // spans are sorted ascending and separated by one delimiter column
        assert!(pair[0].end + 2 == pair[1].start);
    }
}

#[test]
fn segmenter_without_delimiters_yields_single_span() {
    let img = buf(vec![vec![blank(); 8]]);
    let spans = find_spans(&img).unwrap();
    let expected = vec![Icon { position: 1, start: 1, end: 7, center_x: 3, center_y: 0 }];
    assert_eq!(spans, expected);
}

#[test]
fn segmenter_rejects_adjacent_delimiters() {
    let mut rows = vec![vec![blank(); 12]];
    rows[0][4] = delim();
    rows[0][5] = delim();
    let img = buf(rows);
    assert_eq!(find_spans(&img), Err(CaptchaError::MalformedCaptcha));
}

#[test]
fn solve_picks_the_unmatched_icon() {
    let captcha = IconCaptcha::new(sample_strip());
    let icon = captcha.solve().unwrap();
    assert_eq!(icon.position, 3);
    assert_eq!(icon.start, 12);
    assert_eq!(icon.end, 16);
    assert_eq!(icon.center_x, 13);
    assert_eq!(icon.center_y, 1);
}

#[test]
fn solve_rejects_strip_without_delimiters() {
    let mut rows = vec![vec![blank(); 9], vec![blank(); 9]];
    rows[0][1] = ink();
    let captcha = IconCaptcha::new(buf(rows));
    assert_eq!(captcha.solve(), Err(CaptchaError::MalformedCaptcha));
}

#[test]
fn solve_rejects_single_delimiter() {
    let mut rows = vec![vec![blank(); 9], vec![blank(); 9]];
    rows[0][4] = delim();
    rows[0][1] = ink();
    rows[0][6] = ink();
    let captcha = IconCaptcha::new(buf(rows));
    assert_eq!(captcha.solve(), Err(CaptchaError::MalformedCaptcha));
}

#[test]
fn solve_rejects_empty_image() {
    let img = PixelBuffer::from_rows(0, 1, vec![vec![]]).unwrap();
    let captcha = IconCaptcha::new(img);
    assert_eq!(captcha.solve(), Err(CaptchaError::MalformedCaptcha));
}

#[test]
fn solve_reports_empty_silhouette() {
    let mut img = sample_strip();
    // wipe the third span's icon: its crop region has no opaque pixel
    img.rows[0][12] = blank();
    img.rows[0][13] = blank();
    img.rows[1][12] = blank();
    img.rows[1][13] = blank();
    let captcha = IconCaptcha::new(img);
    assert_eq!(captcha.solve(), Err(CaptchaError::EmptySilhouette));
}

#[test]
fn ties_keep_the_earliest_span() {
    // three spans, all pairwise matching (same square icon): every count
    // is 2, and the earliest span wins
    let w = 17;
    let mut rows = vec![vec![blank(); w], vec![blank(); w]];
    rows[0][5] = delim();
    rows[0][11] = delim();
    for c in [1, 2, 6, 7, 12, 13] {
        rows[0][c] = ink();
        rows[1][c] = ink();
    }
    let captcha = IconCaptcha::new(buf(rows));
    let icon = captcha.solve().unwrap();
    assert_eq!(icon.position, 1);
}

#[test]
fn error_descriptions() {
    assert_eq!(
        CaptchaError::EmptySilhouette.describe(),
        "a span contains no opaque pixel"
    );
    assert_eq!(
        CaptchaError::MalformedCaptcha.describe(),
        "the image cannot be segmented into icon spans"
    );
}

#[test]
fn from_rows_rejects_ragged_rows() {
    let rows = vec![vec![blank(); 3], vec![blank(); 2]];
    assert!(PixelBuffer::from_rows(3, 2, rows).is_none());
}

#[test]
fn from_rows_rejects_wrong_height() {
    let rows = vec![vec![blank(); 3]];
    assert!(PixelBuffer::from_rows(3, 2, rows).is_none());
}
