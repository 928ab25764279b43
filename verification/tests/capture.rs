use lmv_core::capture::{
    coverage_totals, frame_diff_totals, is_lit, padded_row_bytes, quadrant_spread, unpad_rows,
    CaptureImage,
};

const BLACK: [u8; 4] = [0, 0, 0, 255];

fn image(w: u32, h: u32, f: impl Fn(u32, u32) -> [u8; 4]) -> CaptureImage {
    let mut rgba = Vec::with_capacity((w * h * 4) as usize);
    for y in 0..h {
        for x in 0..w {
            rgba.extend_from_slice(&f(x, y));
        }
    }
    CaptureImage {
        width: w,
        height: h,
        rgba,
    }
}

fn solid(w: u32, h: u32, color: [u8; 4]) -> CaptureImage {
    image(w, h, |_, _| color)
}

/// The normalized pixel difference built from the integer totals.
fn frame_diff(a: &CaptureImage, b: &CaptureImage) -> f32 {
    match frame_diff_totals(a, b) {
        None => 1.0,
        Some((_, 0)) => 0.0,
        Some((sum, count)) => sum as f32 / (count as f32 * 255.0),
    }
}

/// The lit fraction built from the integer totals.
fn coverage(img: &CaptureImage, bg: [u8; 4], eps: u8) -> f32 {
    let (lit, total) = coverage_totals(img, bg, eps);
    if total == 0 {
        0.0
    } else {
        lit as f32 / total as f32
    }
}

#[test]
fn frame_diff_bounds() {
    let black = solid(32, 32, BLACK);
    let white = solid(32, 32, [255, 255, 255, 255]);
    assert_eq!(frame_diff(&black, &black), 0.0);
    assert_eq!(frame_diff(&black, &white), 1.0);
    // Mismatched sizes read as fully different.
    assert_eq!(frame_diff(&black, &solid(16, 16, BLACK)), 1.0);
}

#[test]
fn coverage_and_spread_extremes() {
    let black = solid(32, 32, BLACK);
    let white = solid(32, 32, [255, 255, 255, 255]);
    assert_eq!(coverage(&black, BLACK, 8), 0.0);
    assert_eq!(coverage(&white, BLACK, 8), 1.0);
    assert_eq!(quadrant_spread(&black, BLACK, 8), 0);
    assert_eq!(quadrant_spread(&white, BLACK, 8), 4);

    // A single lit pixel in the top-left quadrant hits exactly one quadrant.
    let dot = image(32, 32, |x, y| {
        if x == 2 && y == 2 {
            [255, 255, 255, 255]
        } else {
            BLACK
        }
    });
    assert_eq!(quadrant_spread(&dot, BLACK, 8), 1);
}

#[test]
fn frame_diff_totals_count_rgb_only() {
    let a = solid(2, 1, [10, 20, 30, 0]);
    let b = solid(2, 1, [13, 10, 30, 255]);
    // Alpha is ignored: per pixel |10-13| + |20-10| + 0 = 13, over 2 pixels.
    assert_eq!(frame_diff_totals(&a, &b), Some((26, 6)));
    let empty = solid(0, 0, BLACK);
    assert_eq!(frame_diff_totals(&empty, &empty), Some((0, 0)));
    assert_eq!(frame_diff(&empty, &empty), 0.0);
}

#[test]
fn coverage_counts_lit_pixels_against_the_threshold() {
    let img = image(4, 1, |x, _| [x as u8 * 5, 0, 0, 255]);
    // Red channel 0, 5, 10, 15: with eps 5 only 10 and 15 are lit.
    assert_eq!(coverage_totals(&img, BLACK, 5), (2, 4));
    assert_eq!(coverage(&img, BLACK, 5), 0.5);
    assert!(is_lit(&[0, 0, 6, 0], BLACK, 5));
    assert!(!is_lit(&[5, 5, 5, 0], BLACK, 5));
}

#[test]
fn quadrants_split_at_the_half_width_and_height() {
    // A 3x3 image: column 1 and row 1 belong to the right and bottom halves.
    let corner = image(3, 3, |x, y| if x == 1 && y == 1 { [255; 4] } else { BLACK });
    assert_eq!(quadrant_spread(&corner, BLACK, 8), 1);
    let bar = image(3, 3, |x, _| if x == 0 { [255; 4] } else { BLACK });
    assert_eq!(quadrant_spread(&bar, BLACK, 8), 2);
    let empty = solid(0, 5, [255; 4]);
    assert_eq!(quadrant_spread(&empty, BLACK, 8), 0);
}

#[test]
fn padded_rows_are_aligned_to_256_bytes() {
    assert_eq!(padded_row_bytes(0), 0);
    assert_eq!(padded_row_bytes(1), 256);
    assert_eq!(padded_row_bytes(64), 256);
    assert_eq!(padded_row_bytes(65), 512);
    assert_eq!(padded_row_bytes(256), 1024);
}

#[test]
fn unpad_rows_drops_the_row_padding() {
    // Two rows of one pixel each, padded to 8 bytes.
    let padded = [1, 2, 3, 4, 0, 0, 0, 0, 5, 6, 7, 8, 0, 0, 0, 0];
    assert_eq!(unpad_rows(&padded, 1, 2, 8), vec![1, 2, 3, 4, 5, 6, 7, 8]);
    // A trailing partial row is skipped.
    assert_eq!(unpad_rows(&padded[..12], 1, 2, 8), vec![1, 2, 3, 4]);
    // Unpadded rows pass through whole.
    assert_eq!(unpad_rows(&padded, 2, 2, 8), padded.to_vec());
}
