//! Captured frames and the integer image metrics over them: row unpadding of
//! a GPU readback, pixel-difference and coverage totals, and the quadrant
//! spread check.
use vstd::prelude::*;

verus! {

/// Bytes per pixel of a capture (RGBA8).
pub const BYTES_PER_PIXEL: u32 = 4;

/// Row alignment a texture-to-buffer copy requires (bytes), as the GPU API
/// documents it.
pub const COPY_BYTES_PER_ROW_ALIGNMENT: u32 = 256;

/// A captured frame: tight (row-unpadded) RGBA8 pixels, row-major
/// top-to-bottom; `rgba.len() == width * height * 4` for a full capture.
#[derive(Clone)]
pub struct CaptureImage {
    /// Image width in pixels.
    pub width: u32,
    /// Image height in pixels.
    pub height: u32,
    /// `width * height * 4` bytes, RGBA8, no row padding.
    pub rgba: Vec<u8>,
}

/// How to build a headless renderer for capture.
#[derive(Debug, Clone, Copy)]
pub struct HeadlessOptions {
    /// Offscreen render width in pixels.
    pub width: u32,
    /// Offscreen render height in pixels.
    pub height: u32,
    /// Force a fallback (software) adapter so captures rasterize identically
    /// across machines.
    pub prefer_software: bool,
}

/// `width * 4` rounded up to the row alignment.
pub open spec fn spec_padded_row_bytes(width: nat) -> nat {
    ((width * 4 + 255) / 256) * 256
}

/// Bytes per row of a readback buffer: `width * 4` rounded up to the
/// 256-byte row alignment.
pub fn padded_row_bytes(width: u32) -> (r: u32)
    requires
        width * 4 + 255 <= u32::MAX,
    ensures
        r == spec_padded_row_bytes(width as nat),
        r % COPY_BYTES_PER_ROW_ALIGNMENT == 0,
        width * 4 <= r < width * 4 + COPY_BYTES_PER_ROW_ALIGNMENT,
{
    let unpadded = width * BYTES_PER_PIXEL;
    let align = COPY_BYTES_PER_ROW_ALIGNMENT;
    let rows = (unpadded + (align - 1)) / align;
    assert(rows * 256 <= unpadded + 255 && rows * 256 >= unpadded && (rows * 256) % 256 == 0)
        by (nonlinear_arith)
        requires
            rows as int == (unpadded as int + 255) / 256,
            unpadded >= 0,
    ;
    rows * align
}

/// The tight bytes of the first `rows` padded rows, concatenated.
pub open spec fn unpadded(padded: Seq<u8>, tight: nat, bpr: nat, rows: nat) -> Seq<u8>
    decreases rows,
{
    if rows == 0 {
        Seq::empty()
    } else {
        let r = (rows - 1) as nat;
        unpadded(padded, tight, bpr, r) + if tight <= bpr {
            padded.subrange((r * bpr) as int, (r * bpr + tight) as int)
        } else {
            Seq::empty()
        }
    }
}

/// Copy the tight `width * 4` bytes out of each whole padded row of
/// `padded_bpr` bytes into one contiguous buffer. A trailing partial row is
/// skipped, and a row shorter than the tight width contributes nothing.
pub fn unpad_rows(padded: &[u8], width: u32, height: u32, padded_bpr: u32) -> (out: Vec<u8>)
    requires
        padded_bpr > 0,
        width * 4 <= u32::MAX,
    ensures
        out@ == unpadded(
            padded@,
            (width * 4) as nat,
            padded_bpr as nat,
            padded@.len() / (padded_bpr as nat),
        ),
{
    let tight = (width * BYTES_PER_PIXEL) as usize;
    let bpr = padded_bpr as usize;
    let plen = padded.len();
    let rows = plen / bpr;
    let mut out: Vec<u8> = Vec::new();
    let mut r: usize = 0;
    while r < rows
        invariant
            r <= rows,
            rows == padded@.len() / (bpr as nat),
            plen == padded@.len(),
            rows == plen / bpr,
            bpr > 0,
            bpr == padded_bpr,
            tight == width * 4,
            out@ == unpadded(padded@, tight as nat, bpr as nat, r as nat),
        decreases rows - r,
    {
        assert(r * bpr + bpr <= plen) by (nonlinear_arith)
            requires
                r < rows,
                rows == plen / bpr,
                bpr > 0,
        ;
        let start = r * bpr;
        assert(start == r * bpr);
        if tight <= bpr {
            let mut k: usize = 0;
            let ghost before = out@;
            while k < tight
                invariant
                    k <= tight,
                    tight <= bpr,
                    start + bpr <= plen,
                    plen == padded@.len(),
                    out@ == before + padded@.subrange(start as int, start + k),
                decreases tight - k,
            {
                out.push(padded[start + k]);
                assert(out@ =~= before + padded@.subrange(start as int, start + k + 1));
                k = k + 1;
            }
        }
        assert(out@ =~= unpadded(padded@, tight as nat, bpr as nat, (r + 1) as nat));
        r = r + 1;
    }
    out
}

/// Channel `c` of pixel `i` differs from the background by more than `eps`.
pub open spec fn channel_lit(rgba: Seq<u8>, i: int, c: int, bg: Seq<u8>, eps: u8) -> bool {
    let x = rgba[4 * i + c] as int;
    let b = bg[c] as int;
    (if x >= b {
        x - b
    } else {
        b - x
    }) > eps
}

/// Pixel `i`'s RGB differs from `bg` by more than `eps` on some channel
/// (alpha is ignored).
pub open spec fn pixel_lit(rgba: Seq<u8>, i: int, bg: Seq<u8>, eps: u8) -> bool {
    channel_lit(rgba, i, 0, bg, eps) || channel_lit(rgba, i, 1, bg, eps) || channel_lit(
        rgba,
        i,
        2,
        bg,
        eps,
    )
}

/// `|a - b|` for two bytes.
fn abs_diff(a: u8, b: u8) -> (r: u8)
    ensures
        r as int == if a >= b {
            a - b
        } else {
            b - a
        },
{
    if a >= b {
        a - b
    } else {
        b - a
    }
}

/// Whether a pixel's RGB differs from `bg` by more than `eps` on any channel.
pub fn is_lit(px: &[u8], bg: [u8; 4], eps: u8) -> (r: bool)
    requires
        px@.len() >= 3,
    ensures
        r == pixel_lit(px@, 0, bg@, eps),
{
    abs_diff(px[0], bg[0]) > eps || abs_diff(px[1], bg[1]) > eps || abs_diff(px[2], bg[2]) > eps
}

/// The quadrant (`0..4`, row-major: top-left, top-right, bottom-left,
/// bottom-right) pixel `i` of a `w`-wide, `h`-high image falls in.
pub open spec fn quadrant_of(i: int, w: int, h: int) -> int {
    let x = i % w;
    let y = i / w;
    (if y >= h / 2 {
        2int
    } else {
        0int
    }) + (if x >= w / 2 {
        1int
    } else {
        0int
    })
}

/// Some whole pixel among the first `n` is lit and lies in quadrant `q`.
pub open spec fn quadrant_hit(
    rgba: Seq<u8>,
    n: int,
    w: int,
    h: int,
    q: int,
    bg: Seq<u8>,
    eps: u8,
) -> bool {
    exists|i: int| 0 <= i < n && #[trigger] pixel_lit(rgba, i, bg, eps) && quadrant_of(i, w, h) == q
}

/// How many of the four quadrants a lit pixel falls in.
pub open spec fn spec_quadrant_spread(img_rgba: Seq<u8>, w: int, h: int, bg: Seq<u8>, eps: u8) -> int {
    if w == 0 || h == 0 {
        0
    } else {
        let n = img_rgba.len() / 4;
        (if quadrant_hit(img_rgba, n as int, w, h, 0, bg, eps) {
            1int
        } else {
            0int
        }) + (if quadrant_hit(img_rgba, n as int, w, h, 1, bg, eps) {
            1int
        } else {
            0int
        }) + (if quadrant_hit(img_rgba, n as int, w, h, 2, bg, eps) {
            1int
        } else {
            0int
        }) + (if quadrant_hit(img_rgba, n as int, w, h, 3, bg, eps) {
            1int
        } else {
            0int
        })
    }
}

/// Whether a whole pixel of `rgba` is lit.
fn pixel_is_lit(rgba: &Vec<u8>, i: usize, bg: [u8; 4], eps: u8) -> (r: bool)
    requires
        4 * i + 4 <= rgba.len(),
    ensures
        r == pixel_lit(rgba@, i as int, bg@, eps),
{
    let base = 4 * i;
    abs_diff(rgba[base], bg[0]) > eps || abs_diff(rgba[base + 1], bg[1]) > eps || abs_diff(
        rgba[base + 2],
        bg[2],
    ) > eps
}

/// How many of the four image quadrants contain at least one lit pixel
/// (`0..=4`): a cheap "not just a dot in one corner" spread check.
pub fn quadrant_spread(img: &CaptureImage, bg: [u8; 4], eps: u8) -> (r: u8)
    ensures
        r as int == spec_quadrant_spread(img.rgba@, img.width as int, img.height as int, bg@, eps),
        r <= 4,
{
    let w = img.width as usize;
    let h = img.height as usize;
    if w == 0 || h == 0 {
        return 0;
    }
    let n = img.rgba.len() / 4;
    let ghost rgba = img.rgba@;
    let mut hit0 = false;
    let mut hit1 = false;
    let mut hit2 = false;
    let mut hit3 = false;
    let mut i: usize = 0;
    while i < n
        invariant
            i <= n,
            n == rgba.len() / 4,
            rgba == img.rgba@,
            w == img.width,
            h == img.height,
            w > 0,
            h > 0,
            hit0 == quadrant_hit(rgba, i as int, w as int, h as int, 0, bg@, eps),
            hit1 == quadrant_hit(rgba, i as int, w as int, h as int, 1, bg@, eps),
            hit2 == quadrant_hit(rgba, i as int, w as int, h as int, 2, bg@, eps),
            hit3 == quadrant_hit(rgba, i as int, w as int, h as int, 3, bg@, eps),
        decreases n - i,
    {
        let lit = pixel_is_lit(&img.rgba, i, bg, eps);
        let x = i % w;
        let y = i / w;
        let q: usize = (if y >= h / 2 {
            2
        } else {
            0
        }) + (if x >= w / 2 {
            1
        } else {
            0
        });
        assert(q as int == quadrant_of(i as int, w as int, h as int));
        if lit {
            if q == 0 {
                hit0 = true;
            } else if q == 1 {
                hit1 = true;
            } else if q == 2 {
                hit2 = true;
            } else {
                hit3 = true;
            }
        }
        proof {
            assert forall|qq: int| 0 <= qq < 4 implies quadrant_hit(
                rgba,
                i + 1,
                w as int,
                h as int,
                qq,
                bg@,
                eps,
            ) == (quadrant_hit(rgba, i as int, w as int, h as int, qq, bg@, eps) || (lit && q
                == qq)) by {
                if quadrant_hit(rgba, i + 1, w as int, h as int, qq, bg@, eps) {
                    let j = choose|j: int|
                        0 <= j < i + 1 && #[trigger] pixel_lit(rgba, j, bg@, eps) && quadrant_of(
                            j,
                            w as int,
                            h as int,
                        ) == qq;
                    if j < i {
                        assert(quadrant_hit(rgba, i as int, w as int, h as int, qq, bg@, eps));
                    }
                }
                if lit && q == qq {
                    assert(pixel_lit(rgba, i as int, bg@, eps));
                }
                if quadrant_hit(rgba, i as int, w as int, h as int, qq, bg@, eps) {
                    let j = choose|j: int|
                        0 <= j < i && #[trigger] pixel_lit(rgba, j, bg@, eps) && quadrant_of(
                            j,
                            w as int,
                            h as int,
                        ) == qq;
                    assert(0 <= j < i + 1);
                }
            }
        }
        i = i + 1;
    }
    let mut count: u8 = 0;
    if hit0 {
        count = count + 1;
    }
    if hit1 {
        count = count + 1;
    }
    if hit2 {
        count = count + 1;
    }
    if hit3 {
        count = count + 1;
    }
    count
}

/// Sum over the first `n` pixels of the absolute RGB differences.
pub open spec fn diff_sum(a: Seq<u8>, b: Seq<u8>, n: nat) -> nat
    decreases n,
{
    if n == 0 {
        0
    } else {
        let i = (n - 1) as int;
        diff_sum(a, b, (n - 1) as nat) + byte_diff(a[4 * i], b[4 * i]) + byte_diff(
            a[4 * i + 1],
            b[4 * i + 1],
        ) + byte_diff(a[4 * i + 2], b[4 * i + 2])
    }
}

/// `|x - y|` as a natural number.
pub open spec fn byte_diff(x: u8, y: u8) -> nat {
    if x >= y {
        (x - y) as nat
    } else {
        (y - x) as nat
    }
}

proof fn lemma_diff_sum_bound(a: Seq<u8>, b: Seq<u8>, n: nat)
    ensures
        diff_sum(a, b, n) <= 765 * n,
    decreases n,
{
    if n > 0 {
        lemma_diff_sum_bound(a, b, (n - 1) as nat);
    }
}

/// The integer core of the frame difference: the summed absolute RGB
/// difference over whole pixels and the number of channels compared, or
/// `None` when the images differ in size (which reads as fully different).
/// The normalized difference is `sum / (count * 255)`, or 0 for no pixels.
pub fn frame_diff_totals(a: &CaptureImage, b: &CaptureImage) -> (r: Option<(u64, u64)>)
    requires
        a.rgba@.len() <= u64::MAX / 1024,
    ensures
        (a.width != b.width || a.height != b.height || a.rgba@.len() != b.rgba@.len()) <==> r
            is None,
        r matches Some((sum, count)) ==> sum == diff_sum(a.rgba@, b.rgba@, a.rgba@.len() / 4)
            && count == 3 * (a.rgba@.len() / 4),
{
    if a.width != b.width || a.height != b.height || a.rgba.len() != b.rgba.len() {
        return None;
    }
    let n = a.rgba.len() / 4;
    let mut sum: u64 = 0;
    let mut count: u64 = 0;
    let mut i: usize = 0;
    while i < n
        invariant
            i <= n,
            n == a.rgba@.len() / 4,
            n == a.rgba.len() / 4,
            a.rgba@.len() == b.rgba@.len(),
            a.rgba@.len() <= u64::MAX / 1024,
            sum == diff_sum(a.rgba@, b.rgba@, i as nat),
            count == 3 * i,
        decreases n - i,
    {
        proof {
            lemma_diff_sum_bound(a.rgba@, b.rgba@, (i + 1) as nat);
        }
        let base = 4 * i;
        let d = abs_diff(a.rgba[base], b.rgba[base]) as u64 + abs_diff(
            a.rgba[base + 1],
            b.rgba[base + 1],
        ) as u64 + abs_diff(a.rgba[base + 2], b.rgba[base + 2]) as u64;
        sum = sum + d;
        count = count + 3;
        i = i + 1;
    }
    Some((sum, count))
}

/// How many of the first `n` whole pixels are lit.
pub open spec fn lit_count(rgba: Seq<u8>, n: nat, bg: Seq<u8>, eps: u8) -> nat
    decreases n,
{
    if n == 0 {
        0
    } else {
        lit_count(rgba, (n - 1) as nat, bg, eps) + if pixel_lit(rgba, n - 1, bg, eps) {
            1nat
        } else {
            0nat
        }
    }
}

proof fn lemma_lit_count_bound(rgba: Seq<u8>, n: nat, bg: Seq<u8>, eps: u8)
    ensures
        lit_count(rgba, n, bg, eps) <= n,
    decreases n,
{
    if n > 0 {
        lemma_lit_count_bound(rgba, (n - 1) as nat, bg, eps);
    }
}

/// The integer core of coverage: how many whole pixels are lit against `bg`
/// and how many whole pixels there are. Coverage is `lit / total` (0 for no
/// pixels).
pub fn coverage_totals(img: &CaptureImage, bg: [u8; 4], eps: u8) -> (r: (u64, u64))
    ensures
        r.0 == lit_count(img.rgba@, img.rgba@.len() / 4, bg@, eps),
        r.1 == img.rgba@.len() / 4,
        r.0 <= r.1,
{
    let n = img.rgba.len() / 4;
    let mut lit: u64 = 0;
    let mut total: u64 = 0;
    let mut i: usize = 0;
    while i < n
        invariant
            i <= n,
            n == img.rgba@.len() / 4,
            lit == lit_count(img.rgba@, i as nat, bg@, eps),
            total == i,
            lit <= i,
        decreases n - i,
    {
        proof {
            lemma_lit_count_bound(img.rgba@, (i + 1) as nat, bg@, eps);
        }
        if pixel_is_lit(&img.rgba, i, bg, eps) {
            lit = lit + 1;
        }
        total = total + 1;
        i = i + 1;
    }
    (lit, total)
}

/// The pixel difference is normalized: an image compared with itself differs
/// by 0, the difference is symmetric, and it never exceeds 255 per channel
/// compared (so `sum / (count * 255)` stays in `0..=1`).
pub proof fn law_frame_diff_normalized(a: Seq<u8>, b: Seq<u8>, n: nat)
    ensures
        diff_sum(a, a, n) == 0,
        diff_sum(a, b, n) == diff_sum(b, a, n),
        diff_sum(a, b, n) <= 255 * (3 * n),
    decreases n,
{
    lemma_diff_sum_bound(a, b, n);
    if n > 0 {
        law_frame_diff_normalized(a, b, (n - 1) as nat);
    }
}

/// An image with no lit pixel spreads over no quadrant, and a whole image of
/// at least 2x2 pixels whose every pixel is lit covers all four.
pub proof fn law_spread_extremes(rgba: Seq<u8>, w: int, h: int, bg: Seq<u8>, eps: u8)
    requires
        w > 0,
        h > 0,
    ensures
        (forall|i: int| 0 <= i < rgba.len() / 4 ==> !#[trigger] pixel_lit(rgba, i, bg, eps))
            ==> spec_quadrant_spread(rgba, w, h, bg, eps) == 0,
        (w >= 2 && h >= 2 && rgba.len() >= 4 * w * h && forall|i: int|
            0 <= i < rgba.len() / 4 ==> #[trigger] pixel_lit(rgba, i, bg, eps))
            ==> spec_quadrant_spread(rgba, w, h, bg, eps) == 4,
        0 <= spec_quadrant_spread(rgba, w, h, bg, eps) <= 4,
{
    if w >= 2 && h >= 2 && rgba.len() >= 4 * w * h && forall|i: int|
        0 <= i < rgba.len() / 4 ==> #[trigger] pixel_lit(rgba, i, bg, eps) {
        let n = (rgba.len() / 4) as int;
        let last_row = (h - 1) * w;
        assert(w * h <= n) by (nonlinear_arith)
            requires
                rgba.len() >= 4 * w * h,
                n == rgba.len() / 4,
        ;
        assert(last_row + w - 1 < w * h && last_row >= 0) by (nonlinear_arith)
            requires
                last_row == (h - 1) * w,
                w >= 2,
                h >= 2,
        ;
        assert(last_row % w == 0 && last_row / w == h - 1) by (nonlinear_arith)
            requires
                last_row == (h - 1) * w,
                w >= 2,
                h >= 2,
        ;
        assert((last_row + w - 1) % w == w - 1 && (last_row + w - 1) / w == h - 1)
            by (nonlinear_arith)
            requires
                last_row == (h - 1) * w,
                w >= 2,
                h >= 2,
        ;
        assert(h - 1 >= h / 2 && w - 1 >= w / 2 && 0 < h / 2 && 0 < w / 2);
        assert(0int % w == 0 && 0int / w == 0);
        assert((w - 1) % w == w - 1 && (w - 1) / w == 0) by (nonlinear_arith)
            requires
                w >= 2,
        ;
        assert(pixel_lit(rgba, 0, bg, eps) && quadrant_of(0, w, h) == 0);
        assert(pixel_lit(rgba, w - 1, bg, eps) && quadrant_of(w - 1, w, h) == 1);
        assert(pixel_lit(rgba, last_row, bg, eps) && quadrant_of(last_row, w, h) == 2);
        assert(pixel_lit(rgba, last_row + w - 1, bg, eps) && quadrant_of(last_row + w - 1, w, h)
            == 3);
        assert(quadrant_hit(rgba, n, w, h, 0, bg, eps));
        assert(quadrant_hit(rgba, n, w, h, 1, bg, eps));
        assert(quadrant_hit(rgba, n, w, h, 2, bg, eps));
        assert(quadrant_hit(rgba, n, w, h, 3, bg, eps));
    }
}

/// Byte `x` lies more than `eps` away from byte `y`, on either side.
pub open spec fn far_apart(x: u8, y: u8, eps: u8) -> bool {
    x > y + eps || y > x + eps
}

/// Some RGB channel of pixel `i` lies more than `eps` away from the
/// background's.
pub open spec fn differs_from_bg(rgba: Seq<u8>, i: int, bg: Seq<u8>, eps: u8) -> bool {
    exists|c: int| 0 <= c < 3 && #[trigger] far_apart(rgba[4 * i + c], bg[c], eps)
}

/// A pixel is lit exactly when one of its red, green or blue bytes lies more
/// than `eps` away from the background's; alpha plays no part.
pub proof fn law_lit_is_any_rgb_channel(rgba: Seq<u8>, i: int, bg: Seq<u8>, eps: u8)
    ensures
        pixel_lit(rgba, i, bg, eps) == differs_from_bg(rgba, i, bg, eps),
        pixel_lit(rgba, i, bg, eps) == (far_apart(rgba[4 * i], bg[0], eps) || far_apart(
            rgba[4 * i + 1],
            bg[1],
            eps,
        ) || far_apart(rgba[4 * i + 2], bg[2], eps)),
{
    assert(4 * i + 0 == 4 * i);
    if pixel_lit(rgba, i, bg, eps) {
        if channel_lit(rgba, i, 0, bg, eps) {
            assert(far_apart(rgba[4 * i + 0], bg[0], eps));
        } else if channel_lit(rgba, i, 1, bg, eps) {
            assert(far_apart(rgba[4 * i + 1], bg[1], eps));
        } else {
            assert(far_apart(rgba[4 * i + 2], bg[2], eps));
        }
    }
    if differs_from_bg(rgba, i, bg, eps) {
        let c = choose|c: int| 0 <= c < 3 && #[trigger] far_apart(rgba[4 * i + c], bg[c], eps);
        assert(c == 0 || c == 1 || c == 2);
    }
}

/// Coverage counts exactly the lit pixels: the lit total over the first `n`
/// pixels is the number of pixel indices below `n` some RGB byte of which
/// differs from the background by more than `eps`. So an image every pixel
/// of which differs is fully covered, and one none of which differs is not
/// covered at all.
pub proof fn law_coverage_counts_lit_pixels(rgba: Seq<u8>, n: nat, bg: Seq<u8>, eps: u8)
    ensures
        lit_count(rgba, n, bg, eps) == Seq::new(n, |i: int| i).filter(
            |i: int| differs_from_bg(rgba, i, bg, eps),
        ).len(),
        (forall|i: int| 0 <= i < n ==> #[trigger] differs_from_bg(rgba, i, bg, eps)) ==> lit_count(
            rgba,
            n,
            bg,
            eps,
        ) == n,
        (forall|i: int| 0 <= i < n ==> !#[trigger] differs_from_bg(rgba, i, bg, eps)) ==> lit_count(
            rgba,
            n,
            bg,
            eps,
        ) == 0,
    decreases n,
{
    reveal(Seq::filter);
    let pred = |i: int| differs_from_bg(rgba, i, bg, eps);
    if n > 0 {
        law_coverage_counts_lit_pixels(rgba, (n - 1) as nat, bg, eps);
        law_lit_is_any_rgb_channel(rgba, n - 1, bg, eps);
        let all = Seq::new(n, |i: int| i);
        assert(all.drop_last() =~= Seq::new((n - 1) as nat, |i: int| i));
        assert(all.last() == n - 1);
        assert((forall|i: int| 0 <= i < n ==> #[trigger] differs_from_bg(rgba, i, bg, eps))
            ==> differs_from_bg(rgba, n - 1, bg, eps));
        assert((forall|i: int| 0 <= i < n ==> !#[trigger] differs_from_bg(rgba, i, bg, eps))
            ==> !differs_from_bg(rgba, n - 1, bg, eps));
    } else {
        assert(Seq::new(n, |i: int| i).len() == 0);
    }
}

/// Pixel `(x, y)` of a `w`-wide, `h`-high image (row-major, index
/// `y * w + x`) lies in the right half when `x >= w / 2` and in the bottom
/// half when `y >= h / 2`: quadrants are numbered top-left 0, top-right 1,
/// bottom-left 2, bottom-right 3.
pub proof fn law_quadrant_of_coordinates(x: int, y: int, w: int, h: int)
    requires
        0 <= x < w,
        0 <= y,
    ensures
        quadrant_of(y * w + x, w, h) == (if y >= h / 2 {
            2int
        } else {
            0int
        }) + (if x >= w / 2 {
            1int
        } else {
            0int
        }),
{
    assert((y * w + x) % w == x && (y * w + x) / w == y) by (nonlinear_arith)
        requires
            0 <= x < w,
            0 <= y,
    {
        vstd::arithmetic::div_mod::lemma_fundamental_div_mod_converse(y * w + x, w, y, x);
    }
}

} // verus!
