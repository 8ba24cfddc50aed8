use fromfix::config::{parse_ini, Config};
use fromfix::plan::{Action, Fix};
use fromfix::sekiro::{
    aspect_ratio, current_resolution_rflags, fov, framerate, hud, is_fullscreen_effect,
    resolution, resolution_update, step_actions, SekiroStep,
    AWARENESS_CULLING_SIG, AWARENESS_TRANSITION_SIG, FOV_SIG, FRAMERATE_CAP_SIG,
    FS_REFRESH_RATE_SIG, FS_REFRESH_RATE_STARTUP_SIG, HUD_SIG, READY_SIG, RESOLUTION_LIST_SIG,
};

/// The bytes of a signature, with `fill` for each wildcard.
fn sig_bytes(sig: &str, fill: u8) -> Vec<u8> {
    sig.split_whitespace()
        .map(|t| if t.contains('?') { fill } else { u8::from_str_radix(t, 16).unwrap() })
        .collect()
}

/// An image of `0x11` filler with each signature placed at its offset.
fn image(len: usize, parts: &[(usize, &str)]) -> Vec<u8> {
    let mut img = vec![0x11u8; len];
    for &(off, sig) in parts {
        let b = sig_bytes(sig, 0x22);
        img[off..off + b.len()].copy_from_slice(&b);
    }
    img
}

fn defaults() -> Config {
    Config::from_ini(&parse_ini(""))
}

/// Plan each step on the image in turn, writing each patch before the next
/// step is planned (hooks are left out: they need a live process).
fn run_section(img: &mut Vec<u8>, steps: &[SekiroStep]) -> Vec<Action> {
    let mut all = Vec::new();
    for &step in steps {
        let actions = step_actions(img, step);
        for a in &actions {
            if let Action::Patch { fix, offset, .. } = *a {
                let bytes = fix.patch_bytes();
                img[offset..offset + bytes.len()].copy_from_slice(&bytes);
            }
        }
        all.extend(actions);
    }
    all
}

#[test]
fn resolution_hooks_two_bytes_in() {
    let img = image(128, &[(10, READY_SIG)]);
    let mut cfg = defaults();
    cfg.unlock_res = false;
    assert_eq!(resolution(&cfg), vec![SekiroStep::CurrentResolution]);
    assert_eq!(
        step_actions(&img, SekiroStep::CurrentResolution),
        vec![Action::Hook { fix: Fix::CurrentResolution, offset: 12 }]
    );
}

#[test]
fn resolution_reports_missing_signatures() {
    let mut img = image(128, &[]);
    let mut cfg = defaults();
    cfg.borderless = true;
    let steps = resolution(&cfg);
    assert_eq!(
        steps,
        vec![
            SekiroStep::CurrentResolution,
            SekiroStep::ResolutionList,
            SekiroStep::WindowedModeStyle,
        ]
    );
    assert_eq!(
        run_section(&mut img, &steps),
        vec![
            Action::NotFound { fix: Fix::CurrentResolution },
            Action::NotFound { fix: Fix::ResolutionList },
            Action::NotFound { fix: Fix::WindowedModeStyle },
        ]
    );
}

#[test]
fn resolution_list_is_patched() {
    let mut img = image(256, &[(0, READY_SIG), (100, RESOLUTION_LIST_SIG)]);
    let cfg = defaults();
    let plan = run_section(&mut img, &resolution(&cfg));
    assert_eq!(
        plan,
        vec![
            Action::Hook { fix: Fix::CurrentResolution, offset: 2 },
            Action::Patch { fix: Fix::ResolutionList, found: 100, offset: 100 },
        ]
    );
    assert_eq!(Fix::ResolutionList.patch_bytes(), vec![0x90; 6]);
    assert_eq!(&img[100..106], &[0x90; 6]);
}

#[test]
fn a_later_step_sees_an_earlier_patch() {
    let mut img = image(256, &[(100, RESOLUTION_LIST_SIG)]);
    let steps = [SekiroStep::ResolutionList, SekiroStep::ResolutionList];
    assert_eq!(
        run_section(&mut img, &steps),
        vec![
            Action::Patch { fix: Fix::ResolutionList, found: 100, offset: 100 },
            Action::NotFound { fix: Fix::ResolutionList },
        ]
    );
}

#[test]
fn aspect_ratio_needs_both_marker_signatures() {
    let cfg = defaults();
    let steps = aspect_ratio(&cfg);
    assert_eq!(steps, vec![SekiroStep::AnimationCulling, SekiroStep::AwarenessMarkers]);
    let mut img = image(256, &[(40, AWARENESS_TRANSITION_SIG)]);
    assert_eq!(
        run_section(&mut img, &steps),
        vec![
            Action::NotFound { fix: Fix::AnimationCulling },
            Action::NotFound { fix: Fix::AwarenessMarkers },
        ]
    );
    let mut img = image(256, &[(40, AWARENESS_TRANSITION_SIG), (150, AWARENESS_CULLING_SIG)]);
    assert_eq!(
        run_section(&mut img, &steps),
        vec![
            Action::NotFound { fix: Fix::AnimationCulling },
            Action::Hook { fix: Fix::AwarenessTransitionHor, offset: 40 },
            Action::Hook { fix: Fix::AwarenessTransitionVert, offset: 40 + 0x2A },
            Action::Hook { fix: Fix::AwarenessCulling, offset: 150 },
        ]
    );
}

#[test]
fn sections_that_are_off_do_nothing() {
    let mut cfg = defaults();
    cfg.fix_aspect = false;
    cfg.fix_hud = false;
    cfg.unlock_fps = false;
    assert!(aspect_ratio(&cfg).is_empty());
    assert!(hud(&cfg).is_empty());
    assert!(framerate(&cfg).is_empty());
    assert!(fov(false).is_empty());
}

#[test]
fn fov_and_hud_hooks() {
    let img = image(256, &[(20, FOV_SIG), (120, HUD_SIG)]);
    assert_eq!(fov(true), vec![SekiroStep::GameplayFov]);
    assert_eq!(hud(&defaults()), vec![SekiroStep::Hud]);
    assert_eq!(
        step_actions(&img, SekiroStep::GameplayFov),
        vec![Action::Hook { fix: Fix::GameplayFov, offset: 28 }]
    );
    assert_eq!(
        step_actions(&img, SekiroStep::Hud),
        vec![Action::Hook { fix: Fix::HudScaleform, offset: 120 }]
    );
}

#[test]
fn framerate_patches_refresh_rates_three_bytes_in() {
    let mut img = image(
        256,
        &[(10, FS_REFRESH_RATE_SIG), (60, FS_REFRESH_RATE_STARTUP_SIG), (120, FRAMERATE_CAP_SIG)],
    );
    let steps = framerate(&defaults());
    assert_eq!(
        steps,
        vec![
            SekiroStep::RefreshRates,
            SekiroStep::FramerateCap,
            SekiroStep::CurrentFramerate,
            SekiroStep::SprintSpeed,
        ]
    );
    let plan = run_section(&mut img, &steps);
    assert_eq!(
        plan,
        vec![
            Action::Patch { fix: Fix::FsRefreshRate, found: 10, offset: 13 },
            Action::Patch { fix: Fix::FsRefreshRateStartup, found: 60, offset: 63 },
            Action::Patch { fix: Fix::FramerateCap, found: 120, offset: 120 },
            Action::NotFound { fix: Fix::CurrentFramerate },
            Action::NotFound { fix: Fix::SprintSpeed },
        ]
    );
    assert_eq!(Fix::FsRefreshRate.patch_bytes(), vec![0x00]);
    assert_eq!(Fix::FramerateCap.patch_bytes(), vec![0x0F, 0x57, 0xC0, 0x90, 0x90]);
    assert_eq!(img[13], 0x00);
    assert_eq!(img[63], 0x00);
}

#[test]
fn framerate_reports_the_refresh_pair_once() {
    let mut img = image(128, &[(10, FS_REFRESH_RATE_SIG)]);
    let plan = run_section(&mut img, &framerate(&defaults()));
    assert_eq!(plan[0], Action::NotFound { fix: Fix::FsRefreshRate });
    assert_eq!(plan.len(), 4);
}

#[test]
fn fullscreen_effects_by_name() {
    assert!(is_fullscreen_effect("menu/01_910_fade.gfx"));
    assert!(is_fullscreen_effect("01_201_stealtheffect.gfx"));
    assert!(is_fullscreen_effect("x01_200_dyingeffect.gfxy"));
    assert!(is_fullscreen_effect("01_900_black.gfx"));
    assert!(!is_fullscreen_effect("01_900_black.gf"));
    assert!(!is_fullscreen_effect(""));
}

#[test]
fn resolution_update_reads_low_32_bits() {
    assert_eq!(resolution_update(1920, 1080, 0xFFFF_FFFF_0000_0A00, 0x5A0), Some((2560, 1440)));
    assert_eq!(resolution_update(2560, 1440, 0x0A00, 0x1_0000_05A0), None);
    assert_eq!(resolution_update(0, 0, 0xFFFF_FFFF, 1), Some((-1, 1)));
}

#[test]
fn zero_flag_is_set_only_with_the_aspect_fix() {
    assert_eq!(current_resolution_rflags(0x202, true), 0x242);
    assert_eq!(current_resolution_rflags(0x202, false), 0x202);
    assert_eq!(current_resolution_rflags(0x246, true), 0x246);
    assert_eq!(current_resolution_rflags(0x246, false), 0x246);
}
