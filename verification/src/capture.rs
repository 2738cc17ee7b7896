//! Captures of the receiver's window: their size, what their pixels say, the order of the drawing
//! calls that make them, and the file they are kept in.
use crate::precision;
use crate::receiver_window::{Surface, VISUAL_CAPTURE_MAX_HEIGHT, VISUAL_CAPTURE_MAX_WIDTH};
use crate::text;
#[allow(unused_imports)]
use vstd::arithmetic::div_mod::*;
use vstd::prelude::*;

verus! {

/// A quotient rounded to the nearest integer, halves up.
pub open spec fn rounded(part: int, whole: int) -> int {
    (2 * part + whole) / (2 * whole)
}

pub open spec fn at_least_one(n: int) -> int {
    if n < 1 {
        1
    } else {
        n
    }
}

/// A side of a window at a scale, in double precision.
pub open spec fn scaled_to(side: int, scale: (int, int)) -> int {
    at_least_one(rounded(precision::double(side * scale.0), scale.1))
}

/// The size of a capture of a window: that of the window, scaled down as one to what a capture may
/// have at most. The scale is the smaller of two quotients, each in double precision.
pub open spec fn capture_size_of(width: int, height: int) -> (int, int) {
    if width <= VISUAL_CAPTURE_MAX_WIDTH && height <= VISUAL_CAPTURE_MAX_HEIGHT {
        (width, height)
    } else {
        let scale = if VISUAL_CAPTURE_MAX_WIDTH * height <= VISUAL_CAPTURE_MAX_HEIGHT * width {
            precision::fraction(VISUAL_CAPTURE_MAX_WIDTH as int, 1, width)
        } else {
            precision::fraction(VISUAL_CAPTURE_MAX_HEIGHT as int, 1, height)
        };
        (scaled_to(width, scale), scaled_to(height, scale))
    }
}

/// A side that is at most `bound` at the scale itself is so in double precision; the side that the
/// scale comes from is scaled to the limit.
proof fn lemma_scaled_side(side: int, limit: int, whole: int, bound: int)
    requires
        0 < side <= i32::MAX,
        0 < limit < whole <= i32::MAX,
        0 <= bound <= 640,
        side * limit <= bound * whole,
    ensures
        ({
            let scale = precision::fraction(limit, 1, whole);
            &&& 0 <= side * scale.0 <= 0x7fff_ffff * precision::DOUBLE
            &&& 0 <= precision::double(side * scale.0) <= 2 * (side * scale.0)
            &&& 0 < scale.1 <= whole * precision::DOUBLE
            &&& 0 <= rounded(precision::double(side * scale.0), scale.1) <= bound
            &&& side == whole && bound == limit ==> rounded(
                precision::double(side * scale.0),
                scale.1,
            ) == limit
        }),
{
    let (m, p) = precision::fraction(limit, 1, whole);
    precision::lemma_fraction(limit, 1, whole);
    assert(limit * 1 == limit);
    let x = side * m;
    let d = precision::double(x);
    assert(0 <= x <= 0x7fff_ffff * precision::DOUBLE) by (nonlinear_arith)
        requires
            x == side * m,
            0 < side <= 0x7fff_ffff,
            0 <= m <= precision::DOUBLE,
    ;
    precision::lemma_kept_error(x, precision::DOUBLE as int);
    assert(p <= whole * precision::DOUBLE) by (nonlinear_arith)
        requires
            limit * p < precision::DOUBLE * whole,
            limit >= 1,
            p >= 0,
    ;
    assert(2 * x <= 2 * (bound * p) + side) by (nonlinear_arith)
        requires
            x == side * m,
            2 * (whole * m) <= 2 * (limit * p) + whole,
            side * limit <= bound * whole,
            side > 0,
            whole > 0,
            p > 0,
    {
        assert(side * (2 * (whole * m)) <= side * (2 * (limit * p) + whole));
        assert(side * (2 * (whole * m)) == whole * (2 * x));
        assert(side * (2 * (limit * p) + whole) == 2 * ((side * limit) * p) + side * whole);
        assert((side * limit) * p <= (bound * whole) * p);
        assert(2 * ((bound * whole) * p) + side * whole == whole * (2 * (bound * p) + side));
        assert(whole * (2 * x) <= whole * (2 * (bound * p) + side));
    }
    assert(0 <= bound * p <= 640 * p) by (nonlinear_arith)
        requires
            0 <= bound <= 640,
            p > 0,
    ;
    let w = bound * p;
    assert(2 * d < 2 * w + p);
    assert(2 * d + p < (bound + 1) * (2 * p)) by (nonlinear_arith)
        requires
            2 * d < 2 * w + p,
            w == bound * p,
    ;
    lemma_div_pos_is_pos(2 * d + p, 2 * p);
    lemma_div_by_multiple_is_strongly_ordered(
        2 * d + p,
        (bound + 1) * (2 * p),
        bound + 1,
        2 * p,
    );
    lemma_div_multiples_vanish(bound + 1, 2 * p);
    assert((bound + 1) * (2 * p) == (2 * p) * (bound + 1)) by (nonlinear_arith);
    if side == whole && bound == limit {
        assert(2 * w <= 2 * x + whole);
        assert(2 * d + p >= 2 * w);
        assert(bound * (2 * p) == 2 * w) by (nonlinear_arith)
            requires
                w == bound * p,
        ;
        lemma_div_is_ordered(bound * (2 * p), 2 * d + p, 2 * p);
        lemma_div_multiples_vanish(bound, 2 * p);
        assert(bound * (2 * p) == (2 * p) * bound) by (nonlinear_arith);
    }
}

fn scaled_side(side: i32, scale: (u128, u128)) -> (r: i32)
    requires
        0 < side,
        0 <= side * scale.0 <= 0x7fff_ffff * precision::DOUBLE,
        precision::double(side * scale.0) <= 2 * (side * scale.0),
        0 < scale.1 <= 0x7fff_ffff * precision::DOUBLE,
        rounded(precision::double(side * scale.0), scale.1 as int) <= 640,
    ensures
        r == scaled_to(side as int, (scale.0 as int, scale.1 as int)),
{
    let product: u128 = precision::keep(side as u128 * scale.0, precision::DOUBLE);
    let quotient: u128 = (2 * product + scale.1) / (2 * scale.1);
    if quotient < 1 {
        1
    } else {
        quotient as i32
    }
}

/// The size of a capture of a window.
pub fn capture_size(width: i32, height: i32) -> (r: (i32, i32))
    requires
        0 < width,
        0 < height,
    ensures
        (r.0 as int, r.1 as int) == capture_size_of(width as int, height as int),
{
    let max_width: i64 = VISUAL_CAPTURE_MAX_WIDTH as i64;
    let max_height: i64 = VISUAL_CAPTURE_MAX_HEIGHT as i64;
    if width as i64 <= max_width && height as i64 <= max_height {
        return (width, height);
    }
    let scale = if max_width * height as i64 <= max_height * width as i64 {
        proof {
            lemma_scaled_side(width as int, 640, width as int, 640);
            lemma_scaled_side(height as int, 640, width as int, 360);
        }
        precision::divide(VISUAL_CAPTURE_MAX_WIDTH, width as u32)
    } else {
        proof {
            lemma_scaled_side(width as int, 360, height as int, 640);
            lemma_scaled_side(height as int, 360, height as int, 360);
        }
        precision::divide(VISUAL_CAPTURE_MAX_HEIGHT, height as u32)
    };
    (scaled_side(width, scale), scaled_side(height, scale))
}

/// A capture is never empty and never larger than it may be; one that is scaled down is as wide or
/// as high as it may be.
pub proof fn law_captures_fit(width: int, height: int)
    requires
        0 < width <= i32::MAX,
        0 < height <= i32::MAX,
    ensures
        1 <= capture_size_of(width, height).0 <= VISUAL_CAPTURE_MAX_WIDTH,
        1 <= capture_size_of(width, height).1 <= VISUAL_CAPTURE_MAX_HEIGHT,
        capture_size_of(width, height) == (width, height) || capture_size_of(width, height).0
            == VISUAL_CAPTURE_MAX_WIDTH || capture_size_of(width, height).1
            == VISUAL_CAPTURE_MAX_HEIGHT,
{
    if width > VISUAL_CAPTURE_MAX_WIDTH || height > VISUAL_CAPTURE_MAX_HEIGHT {
        if VISUAL_CAPTURE_MAX_WIDTH * height <= VISUAL_CAPTURE_MAX_HEIGHT * width {
            lemma_scaled_side(width, 640, width, 640);
            lemma_scaled_side(height, 640, width, 360);
        } else {
            lemma_scaled_side(width, 360, height, 640);
            lemma_scaled_side(height, 360, height, 360);
        }
    }
}

/// A picture of 32-bit pixels, each of blue, green, red and one more byte, from the top row down.
#[derive(Debug, PartialEq, Eq)]
pub struct CapturedImage {
    pub width: u32,
    pub height: u32,
    pub pixels: Vec<u8>,
}

/// The FNV-1a hash of bytes.
pub open spec fn fnv(bytes: Seq<u8>) -> u64
    decreases bytes.len(),
{
    if bytes.len() == 0 {
        14_695_981_039_346_656_037
    } else {
        let mixed = fnv(bytes.drop_last()) ^ (bytes.last() as u64);
        ((mixed * 1_099_511_628_211) % 0x1_0000_0000_0000_0000) as u64
    }
}

fn hash_bytes(bytes: &[u8]) -> (r: u64)
    ensures
        r == fnv(bytes@),
{
    let mut hash: u64 = 14_695_981_039_346_656_037;
    let mut i: usize = 0;
    assert(bytes@.take(0) == Seq::<u8>::empty());
    while i < bytes.len()
        invariant
            i <= bytes.len(),
            hash == fnv(bytes@.take(i as int)),
        decreases bytes.len() - i,
    {
        assert(bytes@.take(i + 1).drop_last() == bytes@.take(i as int));
        assert(bytes@.take(i + 1).last() == bytes@[i as int]);
        let mixed: u64 = hash ^ (bytes[i] as u64);
        hash = mixed.wrapping_mul(1_099_511_628_211);
        i += 1;
    }
    assert(bytes@.take(bytes@.len() as int) == bytes@);
    hash
}

/// The weight of red in the brightness: 0.2126 in double precision, in units of 2^-56.
pub const RED_WEIGHT: u128 = 15_319_444_492_463_480;

/// The weight of green: 0.7152.
pub const GREEN_WEIGHT: u128 = 51_535_591_255_926_056;

/// The weight of blue: 0.0722.
pub const BLUE_WEIGHT: u128 = 5_202_558_289_538_397;

/// The brightness of a pixel as double precision gives it, in units of 2^-56.
pub open spec fn luma_of(blue: u8, green: u8, red: u8) -> int {
    precision::double(
        precision::double(
            precision::double(red * RED_WEIGHT) + precision::double(green * GREEN_WEIGHT),
        ) + precision::double(blue * BLUE_WEIGHT),
    )
}

/// The brightness of a pixel in ten-thousandths.
pub open spec fn exact_luma_of(blue: u8, green: u8, red: u8) -> nat {
    (red * 2126 + green * 7152 + blue * 722) as nat
}

/// Double precision moves the brightness of a pixel by a few units.
proof fn lemma_luma(blue: u8, green: u8, red: u8)
    ensures
        ({
            let exact = red * RED_WEIGHT + green * GREEN_WEIGHT + blue * BLUE_WEIGHT;
            exact - 0x4000 <= luma_of(blue, green, red) <= exact + 0x4000
        }),
        0 <= luma_of(blue, green, red) < 0x1_0000_0000_0000_0000,
{
    let limit = precision::DOUBLE as int;
    let reds = precision::double(red * RED_WEIGHT);
    let greens = precision::double(green * GREEN_WEIGHT);
    let blues = precision::double(blue * BLUE_WEIGHT);
    precision::lemma_kept_error(red * RED_WEIGHT, limit);
    precision::lemma_kept_error(green * GREEN_WEIGHT, limit);
    precision::lemma_kept_error(blue * BLUE_WEIGHT, limit);
    precision::lemma_kept_error(reds + greens, limit);
    precision::lemma_kept_error(precision::double(reds + greens) + blues, limit);
}

fn luma(blue: u8, green: u8, red: u8) -> (r: u128)
    ensures
        r == luma_of(blue, green, red),
{
    proof {
        let limit = precision::DOUBLE as int;
        let reds = precision::double(red * RED_WEIGHT);
        let greens = precision::double(green * GREEN_WEIGHT);
        precision::lemma_kept_error(red * RED_WEIGHT, limit);
        precision::lemma_kept_error(green * GREEN_WEIGHT, limit);
        precision::lemma_kept_error(blue * BLUE_WEIGHT, limit);
        precision::lemma_kept_error(reds + greens, limit);
    }
    let reds: u128 = precision::keep(red as u128 * RED_WEIGHT, precision::DOUBLE);
    let greens: u128 = precision::keep(green as u128 * GREEN_WEIGHT, precision::DOUBLE);
    let blues: u128 = precision::keep(blue as u128 * BLUE_WEIGHT, precision::DOUBLE);
    let both: u128 = precision::keep(reds + greens, precision::DOUBLE);
    precision::keep(both + blues, precision::DOUBLE)
}

pub open spec fn is_white(blue: u8, green: u8, red: u8) -> bool {
    red >= 245 && green >= 245 && blue >= 245
}

pub open spec fn is_black(blue: u8, green: u8, red: u8) -> bool {
    red <= 10 && green <= 10 && blue <= 10
}

/// What is counted and summed up over pixels.
pub struct Tally {
    pub count: nat,
    pub white: nat,
    pub black: nat,
    pub luma: int,
    pub luma_squares: nat,
}

impl Tally {
    pub open spec fn empty() -> Tally {
        Tally { count: 0, white: 0, black: 0, luma: 0, luma_squares: 0 }
    }

    /// With the pixel whose bytes begin at an offset; one that is not there does not count.
    pub open spec fn with_pixel(self, pixels: Seq<u8>, offset: int) -> Tally {
        if 0 <= offset && offset + 2 < pixels.len() {
            let (blue, green, red) = (pixels[offset], pixels[offset + 1], pixels[offset + 2]);
            let luma = exact_luma_of(blue, green, red);
            Tally {
                count: self.count + 1,
                white: self.white + (if is_white(blue, green, red) {
                    1nat
                } else {
                    0
                }),
                black: self.black + (if is_black(blue, green, red) {
                    1nat
                } else {
                    0
                }),
                luma: precision::double(self.luma + luma_of(blue, green, red)),
                luma_squares: self.luma_squares + luma * luma,
            }
        } else {
            self
        }
    }
}

/// The tally of the pixels of a row, from one column up to another, added to one before it.
pub open spec fn row_tally(
    before: Tally,
    pixels: Seq<u8>,
    width: int,
    y: int,
    left: int,
    right: int,
) -> Tally
    decreases right - left,
{
    if right <= left {
        before
    } else {
        row_tally(before, pixels, width, y, left, right - 1).with_pixel(
            pixels,
            (y * width + right - 1) * 4,
        )
    }
}

/// The tally of the pixels of a region.
pub open spec fn region_tally(
    pixels: Seq<u8>,
    width: int,
    left: int,
    right: int,
    top: int,
    bottom: int,
) -> Tally
    decreases bottom - top,
{
    if bottom <= top {
        Tally::empty()
    } else {
        row_tally(
            region_tally(pixels, width, left, right, top, bottom - 1),
            pixels,
            width,
            bottom - 1,
            left,
            right,
        )
    }
}

/// Where the middle half of a side begins.
pub open spec fn middle_start(side: int) -> int {
    if side == 0 {
        0
    } else {
        side / 4
    }
}

/// Where the middle half of a side ends; it holds a pixel where there is one.
pub open spec fn middle_end(side: int) -> int {
    let end = side * 3 / 4;
    let least = middle_start(side) + 1;
    let wanted = if end < least {
        least
    } else {
        end
    };
    if wanted > side {
        side
    } else {
        wanted
    }
}

fn middle(side: u32) -> (r: (u32, u32))
    ensures
        r.0 == middle_start(side as int),
        r.1 == middle_end(side as int),
        r.0 <= r.1 <= side,
        r.1 - r.0 <= 0x8000_0000,
{
    let start: u64 = side as u64 / 4;
    let end: u64 = side as u64 * 3 / 4;
    let wanted: u64 = if end < start + 1 {
        start + 1
    } else {
        end
    };
    if wanted > side as u64 {
        (start as u32, side)
    } else {
        (start as u32, wanted as u32)
    }
}

/// How many pixels a sum is close to the exact one for.
pub const MOST_SUMMED: u64 = 0x800_0000;

/// 0.98 in single precision, in steps of 2^-24.
pub const MOST_PIXELS: u128 = 16_441_672;

/// What the pixels of a capture say. Ratios and means are kept as their parts.
#[derive(Clone, Copy, Debug, PartialEq, Eq, Structural)]
pub struct CaptureMetrics {
    pub hash: u64,
    /// How many pixels were looked at.
    pub count: u64,
    pub white: u64,
    pub black: u64,
    /// The sum of their brightness as double precision gives it, in units of 2^-56.
    pub luma: u128,
    /// The sum of the squares of their brightness in ten-thousandths.
    pub luma_squares: u128,
}

impl CaptureMetrics {
    pub open spec fn tally(self) -> Tally {
        Tally {
            count: self.count as nat,
            white: self.white as nat,
            black: self.black as nat,
            luma: self.luma as int,
            luma_squares: self.luma_squares as nat,
        }
    }

    /// What ratios and means are taken over.
    pub open spec fn divisor(self) -> int {
        if self.count == 0 {
            1
        } else {
            precision::double(self.count as int)
        }
    }

    /// A part of the pixels over all of them in single precision, in the steps of 2^-24 that this
    /// has from one half to one.
    pub open spec fn share(self, part: int) -> int {
        precision::nearest(
            precision::single(part) * 0x100_0000,
            precision::single(self.divisor()),
        )
    }

    /// The mean brightness in double and then in single precision, in the steps that these have from
    /// 128 to 256: 2^-45 and 2^-16.
    pub open spec fn bright_mean(self) -> int {
        precision::nearest(precision::nearest(self.luma as int, self.divisor() * 0x800), 0x2000_0000)
    }

    /// The mean brightness in double and then in single precision, in the steps that these have from
    /// 8 to 16: 2^-49 and 2^-20.
    pub open spec fn dark_mean(self) -> int {
        precision::nearest(precision::nearest(self.luma as int, self.divisor() * 0x80), 0x2000_0000)
    }

    /// White where the share of white pixels is at least 0.98, which in single precision is
    /// `MOST_PIXELS` steps, and the mean brightness at least 245; black where the share of black
    /// pixels is as large and the mean brightness at most 10.
    pub open spec fn surface(self) -> Surface {
        if self.share(self.white as int) >= MOST_PIXELS && self.bright_mean() >= 245 * 0x1_0000 {
            Surface::White
        } else if self.share(self.black as int) >= MOST_PIXELS && self.dark_mean() <= 10
            * 0x10_0000 {
            Surface::Black
        } else {
            Surface::Mixed
        }
    }

    fn share_of(&self, part: u64, divisor: u128) -> (r: u128)
        requires
            divisor == self.divisor(),
            0 < divisor <= 0x2_0000_0000_0000_0000,
        ensures
            r == self.share(part as int),
    {
        proof {
            precision::lemma_kept_error(part as int, precision::SINGLE as int);
            precision::lemma_kept_error(divisor as int, precision::SINGLE as int);
        }
        let parts: u128 = precision::keep(part as u128, precision::SINGLE);
        let whole: u128 = precision::keep(divisor, precision::SINGLE);
        precision::nearest_quotient(parts * 0x100_0000, whole)
    }

    /// What a capture looks like: white or black where at least 98 in 100 of the pixels are, and
    /// the mean brightness is at least 245 or at most 10.
    pub fn classification(&self) -> (r: Surface)
        ensures
            r == self.surface(),
    {
        proof {
            precision::lemma_kept_error(self.count as int, precision::DOUBLE as int);
        }
        let divisor: u128 = if self.count == 0 {
            1
        } else {
            precision::keep(self.count as u128, precision::DOUBLE)
        };
        let bright: u128 = precision::nearest_quotient(
            precision::nearest_quotient(self.luma, divisor * 0x800),
            0x2000_0000,
        );
        let dark: u128 = precision::nearest_quotient(
            precision::nearest_quotient(self.luma, divisor * 0x80),
            0x2000_0000,
        );
        if self.share_of(self.white, divisor) >= MOST_PIXELS && bright >= 245 * 0x1_0000 {
            Surface::White
        } else if self.share_of(self.black, divisor) >= MOST_PIXELS && dark <= 10 * 0x10_0000 {
            Surface::Black
        } else {
            Surface::Mixed
        }
    }
}

/// Measures a capture: the hash of all of it, and the tally of the pixels in its middle.
pub fn analyze_capture(image: &CapturedImage) -> (r: CaptureMetrics)
    ensures
        r.hash == fnv(image.pixels@),
        r.tally() == region_tally(
            image.pixels@,
            image.width as int,
            middle_start(image.width as int),
            middle_end(image.width as int),
            middle_start(image.height as int),
            middle_end(image.height as int),
        ),
{
    let hash: u64 = hash_bytes(&image.pixels);
    let (left, right): (u32, u32) = middle(image.width);
    let (top, bottom): (u32, u32) = middle(image.height);
    let ghost pixels = image.pixels@;
    let ghost width = image.width as int;
    let mut metrics = CaptureMetrics {
        hash,
        count: 0,
        white: 0,
        black: 0,
        luma: 0,
        luma_squares: 0,
    };
    let mut y: u32 = top;
    while y < bottom
        invariant
            top <= y <= bottom <= image.height,
            left <= right <= image.width,
            pixels == image.pixels@,
            width == image.width,
            metrics.hash == hash,
            metrics.tally() == region_tally(
                pixels,
                width,
                left as int,
                right as int,
                top as int,
                y as int,
            ),
            right - left <= 0x8000_0000,
            bottom - top <= 0x8000_0000,
            metrics.count <= 0x8000_0000 * (y - top),
            metrics.white <= metrics.count,
            metrics.black <= metrics.count,
            precision::fits(metrics.luma as int, precision::DOUBLE as int),
            metrics.luma <= 0x2_0000_0000_0000_0000 * metrics.count,
            metrics.luma_squares <= 6_502_500_000_000 * metrics.count,
        decreases bottom - y,
    {
        let ghost before = metrics.tally();
        let ghost counted = metrics.count;
        let mut x: u32 = left;
        while x < right
            invariant
                top <= y < bottom <= image.height,
                left <= x <= right <= image.width,
                pixels == image.pixels@,
                width == image.width,
                metrics.hash == hash,
                metrics.tally() == row_tally(
                    before,
                    pixels,
                    width,
                    y as int,
                    left as int,
                    x as int,
                ),
                right - left <= 0x8000_0000,
                bottom - top <= 0x8000_0000,
                counted <= 0x8000_0000 * (y - top),
                metrics.count <= counted + (x - left),
                metrics.white <= metrics.count,
                metrics.black <= metrics.count,
                precision::fits(metrics.luma as int, precision::DOUBLE as int),
                metrics.luma <= 0x2_0000_0000_0000_0000 * metrics.count,
                metrics.luma_squares <= 6_502_500_000_000 * metrics.count,
            decreases right - x,
        {
            assert(0 <= y as int * image.width as int <= 0xFFFF_FFFF * 0xFFFF_FFFF)
                by (nonlinear_arith)
                requires
                    0 <= y <= 0xFFFF_FFFF,
                    0 <= image.width <= 0xFFFF_FFFF,
            ;
            let offset: u128 = (y as u128 * image.width as u128 + x as u128) * 4;
            if offset + 2 < image.pixels.len() as u128 {
                let at: usize = offset as usize;
                let blue: u8 = image.pixels[at];
                let green: u8 = image.pixels[at + 1];
                let red: u8 = image.pixels[at + 2];
                let exact: u64 = red as u64 * 2126 + green as u64 * 7152 + blue as u64 * 722;
                assert(0 <= exact as int * exact as int <= 6_502_500_000_000) by (nonlinear_arith)
                    requires
                        0 <= exact <= 2_550_000,
                ;
                let added: u128 = luma(blue, green, red);
                proof {
                    let limit = precision::DOUBLE as int;
                    lemma_luma(blue, green, red);
                    precision::lemma_kept_fits(metrics.luma + added, limit);
                    precision::lemma_kept_sum(metrics.luma as int, added as int, limit);
                }
                metrics.count = metrics.count + 1;
                metrics.luma = precision::keep(metrics.luma + added, precision::DOUBLE);
                metrics.luma_squares = metrics.luma_squares + exact as u128 * exact as u128;
                if red >= 245 && green >= 245 && blue >= 245 {
                    metrics.white = metrics.white + 1;
                }
                if red <= 10 && green <= 10 && blue <= 10 {
                    metrics.black = metrics.black + 1;
                }
            }
            x += 1;
        }
        y += 1;
    }
    metrics
}

/// Whether a tally is one of white pixels alone, or of black ones. Up to `MOST_SUMMED` of them the
/// sum in double precision keeps within what the first gives of 245, 255 and 10 for each pixel, in
/// units of 2^-56, and what rounding may take or add.
spec fn one_colour(tally: Tally, white: bool) -> bool {
    let many = tally.count > MOST_SUMMED;
    if white {
        &&& tally.white == tally.count
        &&& many || 0xF4FF_FFBF_FFF0_0000 * tally.count <= tally.luma <= 0xFF00_0080_0000_0000
            * tally.count
    } else {
        &&& tally.black == tally.count && tally.white == 0
        &&& many || 0 <= tally.luma <= 0xA00_0004_0010_0000 * tally.count
    }
}

proof fn lemma_row_of_one_colour(
    before: Tally,
    pixels: Seq<u8>,
    width: int,
    y: int,
    left: int,
    right: int,
    white: bool,
)
    requires
        one_colour(before, white),
        forall|k: int|
            0 <= k < pixels.len() ==> if white {
                #[trigger] pixels[k] >= 245
            } else {
                pixels[k] <= 10
            },
    ensures
        one_colour(row_tally(before, pixels, width, y, left, right), white),
    decreases right - left,
{
    if left < right {
        lemma_row_of_one_colour(before, pixels, width, y, left, right - 1, white);
        let offset = (y * width + right - 1) * 4;
        if 0 <= offset && offset + 2 < pixels.len() {
            let (blue, green, red) = (pixels[offset], pixels[offset + 1], pixels[offset + 2]);
            assert(white ==> is_white(blue, green, red));
            assert(!white ==> is_black(blue, green, red) && !is_white(blue, green, red));
            let tally = row_tally(before, pixels, width, y, left, right - 1);
            lemma_luma(blue, green, red);
            if tally.count < MOST_SUMMED {
                let sum = tally.luma + luma_of(blue, green, red);
                let kept = precision::double(sum);
                precision::lemma_kept_error(sum, precision::DOUBLE as int);
                if white {
                    assert(sum - 0x40_0000_0000 <= kept <= sum + 0x40_0000_0000);
                } else {
                    assert(sum - 0x4_0000_0000 <= kept <= sum + 0x4_0000_0000);
                }
            }
        }
    }
}

proof fn lemma_region_of_one_colour(
    pixels: Seq<u8>,
    width: int,
    left: int,
    right: int,
    top: int,
    bottom: int,
    white: bool,
)
    requires
        forall|k: int|
            0 <= k < pixels.len() ==> if white {
                #[trigger] pixels[k] >= 245
            } else {
                pixels[k] <= 10
            },
    ensures
        one_colour(region_tally(pixels, width, left, right, top, bottom), white),
    decreases bottom - top,
{
    if top < bottom {
        lemma_region_of_one_colour(pixels, width, left, right, top, bottom - 1, white);
        lemma_row_of_one_colour(
            region_tally(pixels, width, left, right, top, bottom - 1),
            pixels,
            width,
            bottom - 1,
            left,
            right,
            white,
        );
    }
}

proof fn lemma_bright_mean(metrics: CaptureMetrics)
    requires
        0 < metrics.count <= MOST_SUMMED,
        0xF4FF_FFBF_FFF0_0000 * metrics.count <= metrics.luma,
    ensures
        metrics.bright_mean() >= 245 * 0x1_0000,
{
    precision::lemma_kept_error(metrics.count as int, precision::DOUBLE as int);
    let whole = metrics.count * 0x800;
    let least: int = 245int * 0x2000_0000_0000 - 0x1000_0000 + 1;
    assert(least * whole <= metrics.luma) by (nonlinear_arith)
        requires
            whole == metrics.count * 0x800,
            least == 245 * 0x2000_0000_0000 - 0x1000_0000 + 1,
            0xF4FF_FFBF_FFF0_0000 * metrics.count <= metrics.luma,
    ;
    assert(least * whole == whole * least) by (nonlinear_arith);
    lemma_div_is_ordered(whole * least, metrics.luma as int, whole);
    lemma_div_multiples_vanish(least, whole);
}

proof fn lemma_dark_mean(metrics: CaptureMetrics)
    requires
        0 < metrics.count <= MOST_SUMMED,
        metrics.luma <= 0xA00_0004_0010_0000 * metrics.count,
    ensures
        metrics.dark_mean() <= 10 * 0x10_0000,
{
    precision::lemma_kept_error(metrics.count as int, precision::DOUBLE as int);
    let whole = metrics.count * 0x80;
    let most: int = 10int * 0x2_0000_0000_0000 + 0x800_2000;
    assert(metrics.luma <= most * whole) by (nonlinear_arith)
        requires
            whole == metrics.count * 0x80,
            most == 10 * 0x2_0000_0000_0000 + 0x800_2000,
            metrics.luma <= 0xA00_0004_0010_0000 * metrics.count,
    ;
    assert(most * whole == whole * most) by (nonlinear_arith);
    lemma_div_is_ordered(metrics.luma as int, whole * most, whole);
    lemma_div_multiples_vanish(most, whole);
}

/// All of the pixels are a share of one, and none of them one of nothing.
proof fn lemma_shares(metrics: CaptureMetrics)
    requires
        0 < metrics.count <= MOST_SUMMED,
    ensures
        metrics.share(metrics.count as int) == 0x100_0000,
        metrics.share(0) == 0,
{
    let count = metrics.count as int;
    precision::lemma_kept_error(count, precision::DOUBLE as int);
    precision::lemma_kept_error(count, precision::SINGLE as int);
    let kept = precision::single(count);
    assert(kept > 0);
    lemma_div_multiples_vanish(0x100_0000, kept);
    lemma_mod_multiples_basic(0x100_0000, kept);
    assert(kept * 0x100_0000 == 0x100_0000 * kept);
    lemma_basic_div(0, kept);
    lemma_small_mod(0, kept as nat);
    assert(precision::single(0) == 0);
}

/// A capture that is white all over, or black, is called so, wherever a pixel of it is looked at.
/// Over ever more pixels a sum in double precision falls behind, so the law stops at a number of
/// them that is far above that of any capture.
pub proof fn law_plain_captures_are_recognised(
    image: CapturedImage,
    metrics: CaptureMetrics,
    white: bool,
)
    requires
        metrics.tally() == region_tally(
            image.pixels@,
            image.width as int,
            middle_start(image.width as int),
            middle_end(image.width as int),
            middle_start(image.height as int),
            middle_end(image.height as int),
        ),
        0 < metrics.count <= MOST_SUMMED,
        forall|k: int|
            0 <= k < image.pixels@.len() ==> if white {
                #[trigger] image.pixels@[k] >= 245
            } else {
                image.pixels@[k] <= 10
            },
    ensures
        metrics.surface() == if white {
            Surface::White
        } else {
            Surface::Black
        },
{
    lemma_region_of_one_colour(
        image.pixels@,
        image.width as int,
        middle_start(image.width as int),
        middle_end(image.width as int),
        middle_start(image.height as int),
        middle_end(image.height as int),
        white,
    );
    assert(one_colour(metrics.tally(), white));
    lemma_shares(metrics);
    if white {
        lemma_bright_mean(metrics);
    } else {
        lemma_dark_mean(metrics);
    }
}

/// Why a capture failed.
#[derive(Clone, Copy, Debug, PartialEq, Eq, Structural)]
pub enum CaptureError {
    EmptyClientArea,
    CreateCompatibleDc,
    CreateCompatibleBitmap,
    SelectObject,
    StretchBlt,
    /// Other than all of the lines were copied.
    CopiedLines(i32),
    /// Neither the desktop nor the window could be drawn from.
    NoDeviceContext,
    Window,
    TooLargeForBmp,
    BmpSizeOverflow,
}

impl CaptureError {
    pub open spec fn text(self) -> Seq<char> {
        match self {
            CaptureError::EmptyClientArea => "receiver renderer has an empty client area"@,
            CaptureError::CreateCompatibleDc => "CreateCompatibleDC failed"@,
            CaptureError::CreateCompatibleBitmap => "CreateCompatibleBitmap failed"@,
            CaptureError::SelectObject => "SelectObject failed"@,
            CaptureError::StretchBlt => "StretchBlt failed"@,
            CaptureError::CopiedLines(copied) => "GetDIBits copied "@ + text::dec_int(copied as int)
                + " lines"@,
            CaptureError::NoDeviceContext => "GetDC failed for both the desktop and receiver"@,
            CaptureError::Window => "receiver screen capture failed"@,
            CaptureError::TooLargeForBmp => "capture image is too large for a BMP"@,
            CaptureError::BmpSizeOverflow => "capture BMP size overflow"@,
        }
    }

    pub fn message(self) -> (r: String)
        ensures
            r@ == self.text(),
    {
        match self {
            CaptureError::EmptyClientArea =>
                "receiver renderer has an empty client area".to_owned(),
            CaptureError::CreateCompatibleDc => "CreateCompatibleDC failed".to_owned(),
            CaptureError::CreateCompatibleBitmap => "CreateCompatibleBitmap failed".to_owned(),
            CaptureError::SelectObject => "SelectObject failed".to_owned(),
            CaptureError::StretchBlt => "StretchBlt failed".to_owned(),
            CaptureError::CopiedLines(copied) => {
                let mut out = "GetDIBits copied ".to_owned();
                text::push_dec_i64(&mut out, copied as i64);
                out.push_str(" lines");
                out
            },
            CaptureError::NoDeviceContext =>
                "GetDC failed for both the desktop and receiver".to_owned(),
            CaptureError::Window => "receiver screen capture failed".to_owned(),
            CaptureError::TooLargeForBmp => "capture image is too large for a BMP".to_owned(),
            CaptureError::BmpSizeOverflow => "capture BMP size overflow".to_owned(),
        }
    }
}

/// A difference as 32 bits hold it: past their range it stays at the end of it.
pub open spec fn saturated(n: int) -> int {
    if n < i32::MIN {
        i32::MIN as int
    } else if n > i32::MAX {
        i32::MAX as int
    } else {
        n
    }
}

fn saturating_difference(a: i32, b: i32) -> (r: i32)
    ensures
        r == saturated(a - b),
{
    let difference: i64 = a as i64 - b as i64;
    if difference < i32::MIN as i64 {
        i32::MIN
    } else if difference > i32::MAX as i64 {
        i32::MAX
    } else {
        difference as i32
    }
}

/// The size of a window's client area, which may not be empty.
pub fn client_size(left: i32, top: i32, right: i32, bottom: i32) -> (r: Result<
    (i32, i32),
    CaptureError,
>)
    ensures
        match r {
            Ok((width, height)) => width == saturated(right - left) && height == saturated(
                bottom - top,
            ) && width > 0 && height > 0,
            Err(error) => error == CaptureError::EmptyClientArea && (right <= left || bottom
                <= top),
        },
{
    let width: i32 = saturating_difference(right, left);
    let height: i32 = saturating_difference(bottom, top);
    if width <= 0 || height <= 0 {
        Err(CaptureError::EmptyClientArea)
    } else {
        Ok((width, height))
    }
}

/// Where a capture is drawn from.
#[derive(Clone, Copy, Debug, PartialEq, Eq, Structural)]
pub enum CaptureSource {
    Desktop,
    Window,
}

impl CaptureSource {
    pub open spec fn spec_name(self) -> Seq<char> {
        match self {
            CaptureSource::Desktop => "desktop"@,
            CaptureSource::Window => "window"@,
        }
    }

    pub fn name(self) -> (r: &'static str)
        ensures
            r@ == self.spec_name(),
    {
        match self {
            CaptureSource::Desktop => "desktop",
            CaptureSource::Window => "window",
        }
    }
}

/// How an attempt to capture from one source has ended: there may be nothing to draw from.
pub open spec fn capture_outcome(
    desktop: Option<Result<(), CaptureError>>,
    window: Option<Result<(), CaptureError>>,
) -> Result<CaptureSource, CaptureError> {
    match desktop {
        Some(Ok(_)) => Ok(CaptureSource::Desktop),
        _ => {
            let first = match desktop {
                Some(Err(error)) => Some(error),
                _ => None,
            };
            match window {
                Some(Ok(_)) => Ok(CaptureSource::Window),
                Some(Err(_)) => Err(
                    match first {
                        Some(error) => error,
                        None => CaptureError::Window,
                    },
                ),
                None => Err(
                    match first {
                        Some(error) => error,
                        None => CaptureError::NoDeviceContext,
                    },
                ),
            }
        },
    }
}

/// Whether the window is captured itself: only where the desktop could not be.
pub fn falls_back_to_window(desktop: &Option<Result<(), CaptureError>>) -> (r: bool)
    ensures
        r == !(desktop matches Some(Ok(_))),
{
    match desktop {
        Some(Ok(_)) => false,
        _ => true,
    }
}

/// Which of two attempts counts. The desktop goes first, and where both fail, its error is the one
/// that is told.
pub fn capture_result(
    desktop: Option<Result<(), CaptureError>>,
    window: Option<Result<(), CaptureError>>,
) -> (r: Result<CaptureSource, CaptureError>)
    ensures
        r == capture_outcome(desktop, window),
{
    let first = match desktop {
        Some(Ok(_)) => return Ok(CaptureSource::Desktop),
        Some(Err(error)) => Some(error),
        None => None,
    };
    match window {
        Some(Ok(_)) => Ok(CaptureSource::Window),
        Some(Err(_)) => Err(
            match first {
                Some(error) => error,
                None => CaptureError::Window,
            },
        ),
        None => Err(
            match first {
                Some(error) => error,
                None => CaptureError::NoDeviceContext,
            },
        ),
    }
}

/// The drawing call that a capture makes next.
#[derive(Clone, Copy, Debug, PartialEq, Eq, Structural)]
pub enum DrawStage {
    CreateDc,
    CreateBitmap,
    /// Select the bitmap into the device context.
    Select,
    Stretch,
    /// Put back what was selected before: the pixels of a bitmap that is selected are undefined.
    Deselect,
    ReadPixels,
    Done,
}

/// What a capture holds of the drawing system.
#[derive(Clone, Copy, Debug, PartialEq, Eq, Structural)]
pub struct DrawResources {
    pub dc: bool,
    pub bitmap: bool,
    pub selected: bool,
}

impl DrawStage {
    /// What is held when a stage is reached.
    pub open spec fn spec_held(self) -> DrawResources {
        DrawResources {
            dc: !(self is CreateDc),
            bitmap: !(self is CreateDc) && !(self is CreateBitmap),
            selected: self is Stretch || self is Deselect,
        }
    }

    /// What is to be given back when a capture ends at a stage, by a failure or because it is
    /// done: first the selection, then the bitmap, then the device context.
    pub fn held(self) -> (r: DrawResources)
        ensures
            r == self.spec_held(),
    {
        match self {
            DrawStage::CreateDc => DrawResources { dc: false, bitmap: false, selected: false },
            DrawStage::CreateBitmap => DrawResources { dc: true, bitmap: false, selected: false },
            DrawStage::Select => DrawResources { dc: true, bitmap: true, selected: false },
            DrawStage::Stretch => DrawResources { dc: true, bitmap: true, selected: true },
            DrawStage::Deselect => DrawResources { dc: true, bitmap: true, selected: true },
            DrawStage::ReadPixels => DrawResources { dc: true, bitmap: true, selected: false },
            DrawStage::Done => DrawResources { dc: true, bitmap: true, selected: false },
        }
    }

    pub open spec fn spec_next(self) -> DrawStage {
        match self {
            DrawStage::CreateDc => DrawStage::CreateBitmap,
            DrawStage::CreateBitmap => DrawStage::Select,
            DrawStage::Select => DrawStage::Stretch,
            DrawStage::Stretch => DrawStage::Deselect,
            DrawStage::Deselect => DrawStage::ReadPixels,
            DrawStage::ReadPixels => DrawStage::Done,
            DrawStage::Done => DrawStage::Done,
        }
    }

    /// The error of a stage. What was selected before is put back without a test, so that never
    /// fails.
    pub open spec fn failure(self) -> Option<CaptureError> {
        match self {
            DrawStage::CreateDc => Some(CaptureError::CreateCompatibleDc),
            DrawStage::CreateBitmap => Some(CaptureError::CreateCompatibleBitmap),
            DrawStage::Select => Some(CaptureError::SelectObject),
            DrawStage::Stretch => Some(CaptureError::StretchBlt),
            _ => None,
        }
    }

    /// Takes note of how the call of this stage has ended. The last one tells how many lines it
    /// has copied, and has succeeded where that is all of them.
    pub fn step(&mut self, succeeded: bool, copied: i32, lines: i32) -> (r: Result<
        (),
        CaptureError,
    >)
        ensures
            match old(self).failure() {
                Some(error) => if succeeded {
                    r is Ok && *final(self) == old(self).spec_next()
                } else {
                    r == Err::<(), CaptureError>(error) && *final(self) == *old(self)
                },
                None => if *old(self) is ReadPixels && copied != lines {
                    r == Err::<(), CaptureError>(CaptureError::CopiedLines(copied)) && *final(self)
                        == *old(self)
                } else {
                    r is Ok && *final(self) == old(self).spec_next()
                },
            },
    {
        match *self {
            DrawStage::CreateDc => {
                if !succeeded {
                    return Err(CaptureError::CreateCompatibleDc);
                }
                *self = DrawStage::CreateBitmap;
            },
            DrawStage::CreateBitmap => {
                if !succeeded {
                    return Err(CaptureError::CreateCompatibleBitmap);
                }
                *self = DrawStage::Select;
            },
            DrawStage::Select => {
                if !succeeded {
                    return Err(CaptureError::SelectObject);
                }
                *self = DrawStage::Stretch;
            },
            DrawStage::Stretch => {
                if !succeeded {
                    return Err(CaptureError::StretchBlt);
                }
                *self = DrawStage::Deselect;
            },
            DrawStage::Deselect => {
                *self = DrawStage::ReadPixels;
            },
            DrawStage::ReadPixels => {
                if copied != lines {
                    return Err(CaptureError::CopiedLines(copied));
                }
                *self = DrawStage::Done;
            },
            DrawStage::Done => {},
        }
        Ok(())
    }
}

/// The pixels are read only while the bitmap is there and not selected; and each stage takes at
/// most one thing more, or gives the selection back.
pub proof fn law_pixels_are_read_while_nothing_is_selected(stage: DrawStage)
    ensures
        stage is ReadPixels ==> stage.spec_held().bitmap && !stage.spec_held().selected,
        stage.spec_held().selected ==> stage.spec_held().bitmap,
        stage.spec_held().bitmap ==> stage.spec_held().dc,
        stage.spec_held().dc ==> stage.spec_next().spec_held().dc,
        stage.spec_held().bitmap ==> stage.spec_next().spec_held().bitmap,
{
}

/// How many bytes the pixels of a capture take.
pub fn pixel_bytes(width: i32, height: i32) -> (r: u64)
    requires
        0 < width <= VISUAL_CAPTURE_MAX_WIDTH,
        0 < height <= VISUAL_CAPTURE_MAX_HEIGHT,
    ensures
        r == width * height * 4,
{
    assert(0 < width * height <= 640 * 360) by (nonlinear_arith)
        requires
            0 < width <= 640,
            0 < height <= 360,
    ;
    width as u64 * height as u64 * 4
}

/// The four bytes of a number, the low one first.
pub open spec fn bytes4(n: int) -> Seq<u8> {
    seq![
        (n % 0x100) as u8,
        (n / 0x100 % 0x100) as u8,
        (n / 0x1_0000 % 0x100) as u8,
        (n / 0x100_0000 % 0x100) as u8,
    ]
}

/// The two bytes of a number, the low one first.
pub open spec fn bytes2(n: int) -> Seq<u8> {
    seq![(n % 0x100) as u8, (n / 0x100 % 0x100) as u8]
}

fn push4(out: &mut Vec<u8>, n: u32)
    ensures
        final(out)@ == old(out)@ + bytes4(n as int),
{
    out.push((n % 0x100) as u8);
    out.push((n / 0x100 % 0x100) as u8);
    out.push((n / 0x1_0000 % 0x100) as u8);
    out.push((n / 0x100_0000 % 0x100) as u8);
    assert(out@ == old(out)@ + bytes4(n as int));
}

fn push2(out: &mut Vec<u8>, n: u16)
    ensures
        final(out)@ == old(out)@ + bytes2(n as int),
{
    out.push((n % 0x100) as u8);
    out.push((n / 0x100) as u8);
    assert(out@ == old(out)@ + bytes2(n as int));
}

/// The head of a bitmap file: its size, where the pixels begin, and how they are laid out. The
/// height is negative because the top row comes first, and is written in two's complement.
pub open spec fn bmp_head(width: int, height: int, image_size: int) -> Seq<u8> {
    seq![0x42u8, 0x4Du8] + bytes4(54 + image_size) + bytes2(0) + bytes2(0) + bytes4(54) + bytes4(40)
        + bytes4(width) + bytes4(0x1_0000_0000 - height) + bytes2(1) + bytes2(32) + bytes4(0)
        + bytes4(image_size) + bytes4(2_835) + bytes4(2_835) + bytes4(0) + bytes4(0)
}

/// The bitmap file of a capture. There is one height that cannot be negated in 32 bits.
#[verifier::spinoff_prover]
#[verifier::rlimit(40)]
pub fn bmp_bytes(image: &CapturedImage) -> (r: Result<Vec<u8>, CaptureError>)
    requires
        image.height != 0x8000_0000,
    ensures
        match r {
            Ok(bytes) => 54 + image.pixels@.len() <= u32::MAX && bytes@ == bmp_head(
                image.width as int,
                image.height as int,
                image.pixels@.len() as int,
            ) + image.pixels@,
            Err(CaptureError::TooLargeForBmp) => image.pixels@.len() > u32::MAX,
            Err(CaptureError::BmpSizeOverflow) => image.pixels@.len() <= u32::MAX && 54
                + image.pixels@.len() > u32::MAX,
            Err(_) => false,
        },
{
    let length: u64 = image.pixels.len() as u64;
    if length > u32::MAX as u64 {
        return Err(CaptureError::TooLargeForBmp);
    }
    let image_size: u32 = length as u32;
    if length + 54 > u32::MAX as u64 {
        return Err(CaptureError::BmpSizeOverflow);
    }
    let mut bytes: Vec<u8> = vec![0x42, 0x4D];
    push4(&mut bytes, 54 + image_size);
    push2(&mut bytes, 0);
    push2(&mut bytes, 0);
    push4(&mut bytes, 54);
    push4(&mut bytes, 40);
    push4(&mut bytes, image.width);
    let negated: u32 = if image.height == 0 {
        0
    } else {
        u32::MAX - image.height + 1
    };
    assert(bytes4(negated as int) == bytes4(0x1_0000_0000 - image.height));
    push4(&mut bytes, negated);
    push2(&mut bytes, 1);
    push2(&mut bytes, 32);
    push4(&mut bytes, 0);
    push4(&mut bytes, image_size);
    push4(&mut bytes, 2_835);
    push4(&mut bytes, 2_835);
    push4(&mut bytes, 0);
    push4(&mut bytes, 0);
    assert(bytes@ == bmp_head(image.width as int, image.height as int, image_size as int));
    let ghost head = bytes@;
    let mut i: usize = 0;
    while i < image.pixels.len()
        invariant
            i <= image.pixels.len(),
            bytes@ == head + image.pixels@.take(i as int),
        decreases image.pixels.len() - i,
    {
        assert(image.pixels@.take(i + 1) == image.pixels@.take(i as int).push(
            image.pixels@[i as int],
        ));
        bytes.push(image.pixels[i]);
        i += 1;
    }
    assert(image.pixels@.take(image.pixels@.len() as int) == image.pixels@);
    Ok(bytes)
}

/// A number is made up of its four bytes.
proof fn lemma_bytes4(n: int)
    requires
        0 <= n <= u32::MAX,
    ensures
        bytes4(n)[0] + 0x100 * bytes4(n)[1] + 0x1_0000 * bytes4(n)[2] + 0x100_0000 * bytes4(n)[3]
            == n,
{
    lemma_div_denominator(n, 0x100, 0x100);
    lemma_div_denominator(n, 0x1_0000, 0x100);
    assert(n == 0x100 * (n / 0x100) + n % 0x100);
    assert(n / 0x100 == 0x100 * (n / 0x1_0000) + n / 0x100 % 0x100);
    assert(n / 0x1_0000 == 0x100 * (n / 0x100_0000) + n / 0x1_0000 % 0x100);
}

/// The head of a bitmap file is as long as it says, where it says the pixels begin; and the size it
/// tells is the length of the file.
pub proof fn law_bmp_head_tells_its_size(width: int, height: int, pixels: Seq<u8>)
    requires
        54 + pixels.len() <= u32::MAX,
    ensures
        ({
            let file = bmp_head(width, height, pixels.len() as int) + pixels;
            &&& bmp_head(width, height, pixels.len() as int).len() == 54
            &&& file[2] + 0x100 * file[3] + 0x1_0000 * file[4] + 0x100_0000 * file[5] == file.len()
            &&& file[10] == 54
        }),
{
    lemma_bytes4(54 + pixels.len() as int);
    let file = bmp_head(width, height, pixels.len() as int) + pixels;
    let size = bytes4(54 + pixels.len() as int);
    assert(file[2] == size[0] && file[3] == size[1] && file[4] == size[2] && file[5] == size[3]);
    assert(file[10] == bytes4(54)[0]);
}

/// The head of a bitmap file tells the width, the height as that of a picture from the top down, and
/// how many bytes the pixels take, four to each.
pub proof fn law_bmp_head_tells_its_dimensions(width: int, height: int, image_size: int)
    requires
        0 < width <= i32::MAX,
        0 < height <= i32::MAX,
        0 <= image_size <= u32::MAX,
    ensures
        ({
            let head = bmp_head(width, height, image_size);
            &&& head[0] == 0x42 && head[1] == 0x4D
            &&& number4(head, 18) == width
            &&& number4(head, 22) == 0x1_0000_0000 - height
            &&& head[28] == 32 && head[29] == 0
            &&& number4(head, 34) == image_size
            &&& number4(head, 10) == 54
        }),
{
    let head = bmp_head(width, height, image_size);
    lemma_low_byte_first(width);
    lemma_low_byte_first(0x1_0000_0000 - height);
    lemma_low_byte_first(image_size);
    lemma_low_byte_first(54);
    let (w, h, s, o) = (
        bytes4(width),
        bytes4(0x1_0000_0000 - height),
        bytes4(image_size),
        bytes4(54),
    );
    assert(head[18] == w[0] && head[19] == w[1] && head[20] == w[2] && head[21] == w[3]);
    assert(head[22] == h[0] && head[23] == h[1] && head[24] == h[2] && head[25] == h[3]);
    assert(head[34] == s[0] && head[35] == s[1] && head[36] == s[2] && head[37] == s[3]);
    assert(head[10] == o[0] && head[11] == o[1] && head[12] == o[2] && head[13] == o[3]);
    assert(bytes2(32)[0] == 32 && bytes2(32)[1] == 0);
    assert(head[28] == bytes2(32)[0] && head[29] == bytes2(32)[1]);
}

/// The number in four bytes, the low one first.
pub open spec fn number4(bytes: Seq<u8>, at: int) -> int {
    bytes[at] + 0x100 * bytes[at + 1] + 0x1_0000 * bytes[at + 2] + 0x100_0000 * bytes[at + 3]
}

proof fn lemma_low_byte_first(n: int)
    requires
        0 <= n <= u32::MAX,
    ensures
        number4(bytes4(n), 0) == n,
        bytes4(n).len() == 4,
{
    let b = bytes4(n);
    assert(b[0] == n % 0x100 && b[1] == n / 0x100 % 0x100 && b[2] == n / 0x1_0000 % 0x100 && b[3]
        == n / 0x100_0000 % 0x100);
    assert(n / 0x100 / 0x100 == n / 0x1_0000);
    assert(n / 0x1_0000 / 0x100 == n / 0x100_0000);
}

/// The desktop is what is captured wherever it can be, and the window only where it cannot; where
/// neither can, the reason that is told is the desktop's, if it had one.
pub proof fn law_desktop_is_captured_first(
    desktop: Option<Result<(), CaptureError>>,
    window: Option<Result<(), CaptureError>>,
)
    ensures
        ({
            let seen = desktop is Some && desktop->0 is Ok;
            let shown = window is Some && window->0 is Ok;
            let outcome = capture_outcome(desktop, window);
            &&& seen ==> outcome == Ok::<CaptureSource, CaptureError>(CaptureSource::Desktop)
            &&& !seen && shown ==> outcome == Ok::<CaptureSource, CaptureError>(
                CaptureSource::Window,
            )
            &&& !seen && !shown ==> (outcome matches Err(error) && (desktop is Some ==> error
                == desktop->0->Err_0) && (desktop is None && window is None ==> error
                == CaptureError::NoDeviceContext) && (desktop is None && window is Some ==> error
                == CaptureError::Window))
        }),
{
}

/// What is looked at lies in the middle of a capture: from a quarter of a side on up to three
/// quarters of it, and never nothing.
pub proof fn law_the_middle_is_looked_at(side: int)
    requires
        0 < side,
    ensures
        0 <= middle_start(side) < middle_end(side) <= side,
        middle_start(side) == side / 4,
        side >= 4 ==> 4 * middle_end(side) <= 3 * side && 3 * side < 4 * middle_end(side) + 4,
{
}

/// Every pixel of a region counts once, wherever the picture holds it whole.
pub proof fn law_every_pixel_counts_once(
    pixels: Seq<u8>,
    width: int,
    left: int,
    right: int,
    top: int,
    bottom: int,
)
    requires
        0 <= left <= right <= width,
        0 <= top <= bottom,
        width * bottom * 4 <= pixels.len(),
    ensures
        region_tally(pixels, width, left, right, top, bottom).count == (right - left) * (bottom
            - top),
        region_tally(pixels, width, left, right, top, bottom).white <= region_tally(
            pixels,
            width,
            left,
            right,
            top,
            bottom,
        ).count,
        region_tally(pixels, width, left, right, top, bottom).black <= region_tally(
            pixels,
            width,
            left,
            right,
            top,
            bottom,
        ).count,
    decreases bottom - top,
{
    if bottom > top {
        assert(width * (bottom - 1) * 4 <= width * bottom * 4) by (nonlinear_arith)
            requires
                0 <= width,
        ;
        law_every_pixel_counts_once(pixels, width, left, right, top, bottom - 1);
        let before = region_tally(pixels, width, left, right, top, bottom - 1);
        assert(width * bottom * 4 == (bottom - 1) * width * 4 + width * 4) by (nonlinear_arith);
        lemma_row_counts(before, pixels, width, bottom - 1, left, right);
        assert((right - left) * (bottom - top) == (right - left) * (bottom - 1 - top) + (right
            - left)) by (nonlinear_arith);
    } else {
        assert((right - left) * (bottom - top) == 0) by (nonlinear_arith)
            requires
                bottom == top,
        ;
    }
}

proof fn lemma_row_counts(
    before: Tally,
    pixels: Seq<u8>,
    width: int,
    y: int,
    left: int,
    right: int,
)
    requires
        0 <= y,
        0 <= left <= right <= width,
        y * width * 4 + width * 4 <= pixels.len(),
        before.white <= before.count,
        before.black <= before.count,
    ensures
        ({
            let after = row_tally(before, pixels, width, y, left, right);
            &&& after.count == before.count + (right - left)
            &&& after.white <= after.count
            &&& after.black <= after.count
        }),
    decreases right - left,
{
    if right > left {
        lemma_row_counts(before, pixels, width, y, left, right - 1);
        assert(0 <= y * width) by (nonlinear_arith)
            requires
                0 <= y,
                0 <= width,
        ;
    }
}

/// Brightness weighs the colours as the eye does, green most and blue least, and a grey pixel is as
/// bright as each of its colours.
pub proof fn law_brightness_weighs_the_colours(blue: u8, green: u8, red: u8)
    ensures
        blue == green && green == red ==> exact_luma_of(blue, green, red) == 10_000 * red,
        green < 255 ==> exact_luma_of(blue, (green + 1) as u8, red) == exact_luma_of(
            blue,
            green,
            red,
        ) + 7152,
        red < 255 ==> exact_luma_of(blue, green, (red + 1) as u8) == exact_luma_of(
            blue,
            green,
            red,
        ) + 2126,
        blue < 255 ==> exact_luma_of((blue + 1) as u8, green, red) == exact_luma_of(
            blue,
            green,
            red,
        ) + 722,
        is_white(blue, green, red) <==> blue >= 245 && green >= 245 && red >= 245,
        is_black(blue, green, red) <==> blue <= 10 && green <= 10 && red <= 10,
{
}

/// A capture is called white only where at least 98 in 100 of the pixels that were looked at are
/// white, and black only where as many are black, up to what single precision resolves; it is
/// called mixed wherever neither holds.
pub proof fn law_plain_surfaces_are_mostly_of_their_colour(metrics: CaptureMetrics)
    requires
        0 < metrics.count < 0x100_0000,
        metrics.white <= metrics.count,
        metrics.black <= metrics.count,
    ensures
        metrics.surface() is White ==> 100_000 * metrics.white >= 97_999 * metrics.count,
        metrics.surface() is Black ==> 100_000 * metrics.black >= 97_999 * metrics.count,
        100_000 * metrics.white < 97_999 * metrics.count && 100_000 * metrics.black < 97_999
            * metrics.count ==> metrics.surface() is Mixed,
{
    lemma_share(metrics, metrics.white as int);
    lemma_share(metrics, metrics.black as int);
}

proof fn lemma_share(metrics: CaptureMetrics, part: int)
    requires
        0 < metrics.count < 0x100_0000,
        0 <= part <= metrics.count,
    ensures
        metrics.share(part) >= MOST_PIXELS ==> 100_000 * part >= 97_999 * metrics.count,
{
    let count = metrics.count as int;
    precision::lemma_kept_error(count, precision::DOUBLE as int);
    precision::lemma_kept_error(count, precision::SINGLE as int);
    precision::lemma_kept_error(part, precision::SINGLE as int);
    precision::law_nearest_integer_is_nearest(part * 0x100_0000, count);
    let share = metrics.share(part);
    assert(share == precision::nearest(part * 0x100_0000, count));
    if share >= MOST_PIXELS {
        assert(share * count >= 16_441_672 * count) by (nonlinear_arith)
            requires
                share >= 16_441_672,
                count > 0,
        ;
    }
}

} // verus!
