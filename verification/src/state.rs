//! Runtime aspect-ratio and HUD geometry, computed exactly from the current
//! resolution, and the atomic cell that shares a float between threads.
//!
//! The geometry is given as exact ratios of integers; turning a ratio into the
//! `f32` the game reads is one division done where the value is stored.
use vstd::prelude::*;
use core::sync::atomic::AtomicU32;

verus! {

/// An `f32` stored inside an `AtomicU32` (as its bit pattern). Values are
/// written once by the loader thread and read by the hook handlers on the
/// game's own threads, so nothing is known of what a load returns.
pub struct AtomicF32(pub AtomicU32);

impl AtomicF32 {
    /// The bit pattern stored last (relaxed ordering).
    pub fn load_bits(&self) -> u32 {
        self.0.load(core::sync::atomic::Ordering::Relaxed)
    }

    /// Store a bit pattern (relaxed ordering).
    pub fn store_bits(&self, bits: u32) {
        self.0.store(bits, core::sync::atomic::Ordering::Relaxed)
    }
}

/// The exact number `num / den`.
#[derive(Clone, Copy, PartialEq, Eq, Structural, Debug)]
pub struct Ratio {
    pub num: i64,
    pub den: i64,
}

/// `r` stands for the number `num / den`.
pub open spec fn is_ratio(r: Ratio, num: int, den: int) -> bool {
    r.num * den == num * r.den
}

/// Aspect ratio and HUD placement for one resolution.
#[derive(Clone, Copy, PartialEq, Eq, Structural, Debug)]
pub struct AspectLayout {
    /// Width over height.
    pub aspect_ratio: Ratio,
    /// The aspect ratio over the native 16:9.
    pub aspect_mult: Ratio,
    /// Width of the 16:9 HUD area.
    pub hud_width: Ratio,
    /// Height of the 16:9 HUD area.
    pub hud_height: Ratio,
    /// Space left and right of the HUD area.
    pub hud_width_off: Ratio,
    /// Space above and below the HUD area.
    pub hud_height_off: Ratio,
}

/// The screen is narrower than 16:9 (letterboxed HUD); otherwise the HUD is
/// pillarboxed, which includes exactly 16:9.
pub open spec fn is_letterboxed(x: int, y: int) -> bool {
    9 * x < 16 * y
}

/// The layout for resolution `x` by `y`: a 16:9 HUD area as large as fits,
/// centred on the screen.
pub open spec fn layout_of(x: int, y: int) -> AspectLayout {
    let aspect_ratio = Ratio { num: x as i64, den: y as i64 };
    let aspect_mult = Ratio { num: (9 * x) as i64, den: (16 * y) as i64 };
    if is_letterboxed(x, y) {
        AspectLayout {
            aspect_ratio,
            aspect_mult,
            hud_width: Ratio { num: x as i64, den: 1 },
            hud_height: Ratio { num: (9 * x) as i64, den: 16 },
            hud_width_off: Ratio { num: 0, den: 1 },
            hud_height_off: Ratio { num: (16 * y - 9 * x) as i64, den: 32 },
        }
    } else {
        AspectLayout {
            aspect_ratio,
            aspect_mult,
            hud_width: Ratio { num: (16 * y) as i64, den: 9 },
            hud_height: Ratio { num: y as i64, den: 1 },
            hud_width_off: Ratio { num: (9 * x - 16 * y) as i64, den: 18 },
            hud_height_off: Ratio { num: 0, den: 1 },
        }
    }
}

/// Recompute aspect ratio and HUD placement from the resolution `x` by `y`;
/// `None` (nothing to recompute) unless both are positive.
pub fn calculate_aspect_ratio(x: i32, y: i32) -> (r: Option<AspectLayout>)
    ensures
        (x <= 0 || y <= 0) ==> r is None,
        (x > 0 && y > 0) ==> r == Some(layout_of(x as int, y as int)),
{
    if x <= 0 || y <= 0 {
        return None;
    }
    let xl = x as i64;
    let yl = y as i64;
    let aspect_ratio = Ratio { num: xl, den: yl };
    let aspect_mult = Ratio { num: 9 * xl, den: 16 * yl };
    if 9 * xl < 16 * yl {
        Some(
            AspectLayout {
                aspect_ratio,
                aspect_mult,
                hud_width: Ratio { num: xl, den: 1 },
                hud_height: Ratio { num: 9 * xl, den: 16 },
                hud_width_off: Ratio { num: 0, den: 1 },
                hud_height_off: Ratio { num: 16 * yl - 9 * xl, den: 32 },
            },
        )
    } else {
        Some(
            AspectLayout {
                aspect_ratio,
                aspect_mult,
                hud_width: Ratio { num: 16 * yl, den: 9 },
                hud_height: Ratio { num: yl, den: 1 },
                hud_width_off: Ratio { num: 9 * xl - 16 * yl, den: 18 },
                hud_height_off: Ratio { num: 0, den: 1 },
            },
        )
    }
}

/// For every positive resolution the HUD area is 16:9, lies inside the
/// screen, and is centred: the two horizontal margins and the HUD width make
/// up the screen width, and likewise vertically. The aspect multiplier is the
/// aspect ratio over 16:9.
pub proof fn lemma_hud_fits_centred(x: i32, y: i32)
    requires
        x > 0,
        y > 0,
    ensures
        ({
            let l = layout_of(x as int, y as int);
            &&& l.hud_width.den > 0 && l.hud_height.den > 0
            &&& l.hud_width_off.den > 0 && l.hud_height_off.den > 0
            &&& l.aspect_ratio.den > 0 && l.aspect_mult.den > 0
            &&& is_ratio(l.aspect_ratio, x as int, y as int)
            &&& l.aspect_mult.num * l.aspect_ratio.den * 16 == 9 * l.aspect_ratio.num
                * l.aspect_mult.den
            &&& l.hud_width.num * l.hud_height.den * 9 == l.hud_height.num * l.hud_width.den * 16
            &&& l.hud_width_off.num >= 0 && l.hud_height_off.num >= 0
            &&& 2 * l.hud_width_off.num * l.hud_width.den + l.hud_width.num * l.hud_width_off.den
                == x * l.hud_width_off.den * l.hud_width.den
            &&& 2 * l.hud_height_off.num * l.hud_height.den + l.hud_height.num
                * l.hud_height_off.den == y * l.hud_height_off.den * l.hud_height.den
        }),
{
    let xi = x as int;
    let yi = y as int;
    let l = layout_of(xi, yi);
    assert(l.aspect_ratio.num == xi && l.aspect_ratio.den == yi);
    assert(l.aspect_mult.num == 9 * xi && l.aspect_mult.den == 16 * yi);
    assert((9 * xi) * yi * 16 == 9 * xi * (16 * yi)) by (nonlinear_arith);
    if is_letterboxed(xi, yi) {
        assert(l.hud_width.num == xi && l.hud_width.den == 1);
        assert(l.hud_height.num == 9 * xi && l.hud_height.den == 16);
        assert(l.hud_height_off.num == 16 * yi - 9 * xi && l.hud_height_off.den == 32);
        assert(2 * (16 * yi - 9 * xi) * 16 + (9 * xi) * 32 == yi * 32 * 16) by (nonlinear_arith);
    } else {
        assert(l.hud_width.num == 16 * yi && l.hud_width.den == 9);
        assert(l.hud_height.num == yi && l.hud_height.den == 1);
        assert(l.hud_width_off.num == 9 * xi - 16 * yi && l.hud_width_off.den == 18);
        assert(2 * (9 * xi - 16 * yi) * 9 + (16 * yi) * 18 == xi * 18 * 9) by (nonlinear_arith);
    }
}

/// Exactly at 16:9 the HUD area is the whole screen.
pub proof fn lemma_native_fills_screen(x: i32, y: i32)
    requires
        x > 0,
        y > 0,
        9 * x == 16 * y,
    ensures
        ({
            let l = layout_of(x as int, y as int);
            &&& l.hud_width_off.num == 0 && l.hud_height_off.num == 0
            &&& is_ratio(l.hud_width, x as int, 1) && is_ratio(l.hud_height, y as int, 1)
            &&& is_ratio(l.aspect_mult, 1, 1)
        }),
{
}

} // verus!
