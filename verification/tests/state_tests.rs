use core::sync::atomic::AtomicU32;
use fromfix::state::{calculate_aspect_ratio, AspectLayout, AtomicF32, Ratio};

fn r(num: i64, den: i64) -> Ratio {
    Ratio { num, den }
}

#[test]
fn no_layout_without_a_resolution() {
    assert_eq!(calculate_aspect_ratio(0, 1080), None);
    assert_eq!(calculate_aspect_ratio(1920, 0), None);
    assert_eq!(calculate_aspect_ratio(-1920, 1080), None);
}

#[test]
fn native_16_by_9() {
    assert_eq!(
        calculate_aspect_ratio(1920, 1080),
        Some(AspectLayout {
            aspect_ratio: r(1920, 1080),
            aspect_mult: r(17280, 17280),
            hud_width: r(17280, 9),
            hud_height: r(1080, 1),
            hud_width_off: r(0, 18),
            hud_height_off: r(0, 1),
        })
    );
}

#[test]
fn ultrawide_is_pillarboxed() {
    // 3440x1440: HUD 2560x1440, 440 px left and right.
    let l = calculate_aspect_ratio(3440, 1440).unwrap();
    assert_eq!(l.hud_width, r(23040, 9));
    assert_eq!(l.hud_height, r(1440, 1));
    assert_eq!(l.hud_width_off, r(7920, 18));
    assert_eq!(l.hud_height_off, r(0, 1));
    assert_eq!(l.hud_width.num / l.hud_width.den, 2560);
    assert_eq!(l.hud_width_off.num / l.hud_width_off.den, 440);
    assert_eq!(l.aspect_mult, r(30960, 23040));
}

#[test]
fn narrow_is_letterboxed() {
    // 1280x1024: HUD 1280x720, 152 px above and below.
    let l = calculate_aspect_ratio(1280, 1024).unwrap();
    assert_eq!(l.aspect_ratio, r(1280, 1024));
    assert_eq!(l.hud_width, r(1280, 1));
    assert_eq!(l.hud_height, r(11520, 16));
    assert_eq!(l.hud_width_off, r(0, 1));
    assert_eq!(l.hud_height_off, r(4864, 32));
    assert_eq!(l.hud_height_off.num / l.hud_height_off.den, 152);
}

#[test]
fn hud_is_centred_and_16_by_9() {
    for &(x, y) in &[(3440i32, 1440i32), (1280, 1024), (1920, 1200), (2560, 1080), (800, 600)] {
        let l = calculate_aspect_ratio(x, y).unwrap();
        let (w, h) = (l.hud_width, l.hud_height);
        assert_eq!(w.num * h.den * 9, h.num * w.den * 16);
        let wo = l.hud_width_off;
        assert_eq!(2 * wo.num * w.den + w.num * wo.den, x as i64 * wo.den * w.den);
        let ho = l.hud_height_off;
        assert_eq!(2 * ho.num * h.den + h.num * ho.den, y as i64 * ho.den * h.den);
    }
}

#[test]
fn atomic_f32_keeps_bits() {
    let cell = AtomicF32(AtomicU32::new(1.0f32.to_bits()));
    assert_eq!(f32::from_bits(cell.load_bits()), 1.0);
    cell.store_bits(1.5f32.to_bits());
    assert_eq!(f32::from_bits(cell.load_bits()), 1.5);
}
