//! Sekiro: Shadows Die Twice. Where each fix patches or hooks the game code,
//! found by signature in the decrypted image.
//!
//! Each section (resolution, aspect ratio, FOV, HUD, framerate) is a list of
//! steps chosen by the configuration. Each step is planned on the image as it
//! stands when the step runs, after every earlier step has been written, so a
//! scan sees the patches and hooks that came before it. Within a step that
//! covers a pair of sites (the awareness markers, the refresh rates) both
//! signatures are scanned before either site is written.
use vstd::prelude::*;
use crate::config::Config;
use crate::memory::{find_signature, pattern_scan};
use crate::plan::{hook_or_missing, patch_or_missing, push_hook, push_patch, Action, Fix};

verus! {

/// The CurrentResolution signature, also used as the "code is ready" sentinel.
pub const READY_SIG: &'static str = "85 ?? 74 ?? ?? 8B ?? ?? ?? ?? ?? ?? 45 ?? ?? 74 ?? 41 ?? ?? 0F ?? ??";

/// The jump that filters the windowed resolution list.
pub const RESOLUTION_LIST_SIG: &'static str =
    "0F 84 ?? ?? ?? ?? 48 8B ?? ?? ?? ?? ?? 48 85 ?? 0F 84 ?? ?? ?? ?? 0F ?? ?? ?? 48 8D ?? ?? E8 ?? ?? ?? ??";

/// The branch that picks the bordered window style.
pub const WINDOWED_STYLE_SIG: &'static str =
    "74 ?? 84 ?? B8 ?? ?? ?? ?? B9 ?? ?? ?? ?? 0F ?? ?? 48 83 ?? ?? C3";

/// Animation culling's aspect ratio.
pub const ANIMATION_CULLING_SIG: &'static str =
    "F3 0F ?? ?? ?? BA 01 00 00 00 48 ?? ?? E8 ?? ?? ?? ?? 48 ?? ?? ?? 48 ?? ?? E8 ?? ?? ?? ??";

/// Awareness-marker transition (the vertical site is 0x2A further on).
pub const AWARENESS_TRANSITION_SIG: &'static str =
    "F3 0F ?? ?? ?? ?? 0F ?? ?? 72 ?? 0F ?? ?? F3 0F ?? ?? F3 0F ?? ?? 0F ?? ?? 72 ??";

/// Awareness-marker culling.
pub const AWARENESS_CULLING_SIG: &'static str =
    "0F ?? ?? 0F ?? ?? ?? 72 ?? F3 0F ?? ?? ?? ?? ?? ?? 0F 57 ?? 0F ?? ?? 72 ??";

/// Gameplay FOV (the hook site is 8 bytes in).
pub const FOV_SIG: &'static str =
    "48 0F ?? ?? F3 0F ?? ?? F3 0F ?? ?? ?? ?? ?? ?? F3 0F ?? ?? ?? F3 41 ?? ?? ?? ?? ?? ?? ?? F3 0F ?? ??";

/// Scaleform GFX HUD setup.
pub const HUD_SIG: &'static str =
    "8B ?? 0F ?? ?? F3 0F ?? ?? ?? F3 0F ?? ?? ?? F3 0F ?? ?? F3 0F ?? ?? ?? F3 0F ?? ?? ?? F3 0F ?? ?? 85 ??";

/// Fullscreen refresh rate (the 60 is 3 bytes in).
pub const FS_REFRESH_RATE_SIG: &'static str = "C7 ?? ?? 3C 00 00 00 48 ?? ?? ?? 01 00 00 00 4C ?? ?? ??";

/// Fullscreen refresh rate at startup (the 60 is 3 bytes in).
pub const FS_REFRESH_RATE_STARTUP_SIG: &'static str =
    "C7 45 ?? 3C 00 00 00 C7 45 ?? 01 00 00 00 48 8D ?? ??";

/// The frame-rate cap load.
pub const FRAMERATE_CAP_SIG: &'static str =
    "F3 0F ?? ?? ?? 0F ?? ?? 48 8B ?? ?? ?? ?? ?? 0F 57 ?? F2 ?? ?? ?? ??";

/// Where the current frame time is in xmm3.
pub const CURRENT_FRAMERATE_SIG: &'static str =
    "F3 0F ?? ?? ?? 4C ?? ?? ?? ?? 48 ?? ?? ?? ?? 0F ?? ?? F3 ?? ?? ?? ??";

/// The movement-delta branch that scales sprint speed.
pub const SPRINT_SPEED_SIG: &'static str =
    "76 ?? F3 0F ?? ?? ?? ?? ?? ?? 0F ?? ?? ?? ?? ?? ?? 76 ?? F3 0F ?? ?? ?? ?? ?? ??";

/// One step of a Sekiro section: the fix (or the pair of fixes found
/// together) that is planned, and then written, before the next step is
/// planned.
#[derive(Clone, Copy, PartialEq, Eq, Structural, Debug)]
pub enum SekiroStep {
    /// Hook the current-resolution read.
    CurrentResolution,
    /// Unlock the windowed resolution list.
    ResolutionList,
    /// Drop the border of windowed mode.
    WindowedModeStyle,
    /// Hook animation culling's aspect ratio.
    AnimationCulling,
    /// Hook the awareness markers (both signatures are scanned first).
    AwarenessMarkers,
    /// Hook the gameplay field of view.
    GameplayFov,
    /// Hook the Scaleform HUD setup.
    Hud,
    /// Patch both refresh-rate sites (both signatures are scanned first).
    RefreshRates,
    /// Patch the frame-rate cap.
    FramerateCap,
    /// Hook the current frame time.
    CurrentFramerate,
    /// Hook the sprint-speed branch.
    SprintSpeed,
}

/// The awareness-marker hooks: both signatures must match.
pub open spec fn awareness_plan(img: Seq<u8>) -> Seq<Action> {
    match (
        find_signature(img, AWARENESS_TRANSITION_SIG@),
        find_signature(img, AWARENESS_CULLING_SIG@),
    ) {
        (Some(t), Some(c)) => seq![
            Action::Hook { fix: Fix::AwarenessTransitionHor, offset: t as usize },
            Action::Hook { fix: Fix::AwarenessTransitionVert, offset: (t + 0x2A) as usize },
            Action::Hook { fix: Fix::AwarenessCulling, offset: c as usize },
        ],
        _ => seq![Action::NotFound { fix: Fix::AwarenessMarkers }],
    }
}

/// Both refresh-rate sites are patched 3 bytes in, or the pair is reported missing.
pub open spec fn refresh_rate_plan(img: Seq<u8>) -> Seq<Action> {
    match (
        find_signature(img, FS_REFRESH_RATE_SIG@),
        find_signature(img, FS_REFRESH_RATE_STARTUP_SIG@),
    ) {
        (Some(a), Some(b)) => seq![
            Action::Patch { fix: Fix::FsRefreshRate, found: a as usize, offset: (a + 3) as usize },
            Action::Patch {
                fix: Fix::FsRefreshRateStartup,
                found: b as usize,
                offset: (b + 3) as usize,
            },
        ],
        _ => seq![Action::NotFound { fix: Fix::FsRefreshRate }],
    }
}

/// What a step does to the image it is planned on.
pub open spec fn step_plan(img: Seq<u8>, step: SekiroStep) -> Seq<Action> {
    match step {
        SekiroStep::CurrentResolution => hook_or_missing(
            img,
            READY_SIG@,
            Fix::CurrentResolution,
            2,
        ),
        SekiroStep::ResolutionList => patch_or_missing(
            img,
            RESOLUTION_LIST_SIG@,
            Fix::ResolutionList,
            0,
        ),
        SekiroStep::WindowedModeStyle => patch_or_missing(
            img,
            WINDOWED_STYLE_SIG@,
            Fix::WindowedModeStyle,
            0,
        ),
        SekiroStep::AnimationCulling => hook_or_missing(
            img,
            ANIMATION_CULLING_SIG@,
            Fix::AnimationCulling,
            0,
        ),
        SekiroStep::AwarenessMarkers => awareness_plan(img),
        SekiroStep::GameplayFov => hook_or_missing(img, FOV_SIG@, Fix::GameplayFov, 8),
        SekiroStep::Hud => hook_or_missing(img, HUD_SIG@, Fix::HudScaleform, 0),
        SekiroStep::RefreshRates => refresh_rate_plan(img),
        SekiroStep::FramerateCap => patch_or_missing(
            img,
            FRAMERATE_CAP_SIG@,
            Fix::FramerateCap,
            0,
        ),
        SekiroStep::CurrentFramerate => hook_or_missing(
            img,
            CURRENT_FRAMERATE_SIG@,
            Fix::CurrentFramerate,
            0,
        ),
        SekiroStep::SprintSpeed => hook_or_missing(img, SPRINT_SPEED_SIG@, Fix::SprintSpeed, 0),
    }
}

/// Plan one step on the image as it stands now.
pub fn step_actions(image: &[u8], step: SekiroStep) -> (r: Vec<Action>)
    requires
        image@.len() <= isize::MAX,
    ensures
        r@ == step_plan(image@, step),
{
    let mut out: Vec<Action> = Vec::new();
    match step {
        SekiroStep::CurrentResolution => {
            push_hook(image, READY_SIG, Fix::CurrentResolution, 2, &mut out);
        },
        SekiroStep::ResolutionList => {
            push_patch(image, RESOLUTION_LIST_SIG, Fix::ResolutionList, 0, &mut out);
        },
        SekiroStep::WindowedModeStyle => {
            push_patch(image, WINDOWED_STYLE_SIG, Fix::WindowedModeStyle, 0, &mut out);
        },
        SekiroStep::AnimationCulling => {
            push_hook(image, ANIMATION_CULLING_SIG, Fix::AnimationCulling, 0, &mut out);
        },
        SekiroStep::AwarenessMarkers => {
            let transition = pattern_scan(image, AWARENESS_TRANSITION_SIG);
            let culling = pattern_scan(image, AWARENESS_CULLING_SIG);
            match (transition, culling) {
                (Some(t), Some(c)) => {
                    out.push(Action::Hook { fix: Fix::AwarenessTransitionHor, offset: t });
                    out.push(Action::Hook { fix: Fix::AwarenessTransitionVert, offset: t + 0x2A });
                    out.push(Action::Hook { fix: Fix::AwarenessCulling, offset: c });
                },
                _ => {
                    out.push(Action::NotFound { fix: Fix::AwarenessMarkers });
                },
            }
        },
        SekiroStep::GameplayFov => {
            push_hook(image, FOV_SIG, Fix::GameplayFov, 8, &mut out);
        },
        SekiroStep::Hud => {
            push_hook(image, HUD_SIG, Fix::HudScaleform, 0, &mut out);
        },
        SekiroStep::RefreshRates => {
            let fs_rr = pattern_scan(image, FS_REFRESH_RATE_SIG);
            let fs_rr_startup = pattern_scan(image, FS_REFRESH_RATE_STARTUP_SIG);
            match (fs_rr, fs_rr_startup) {
                (Some(a), Some(b)) => {
                    out.push(Action::Patch { fix: Fix::FsRefreshRate, found: a, offset: a + 3 });
                    out.push(
                        Action::Patch { fix: Fix::FsRefreshRateStartup, found: b, offset: b + 3 },
                    );
                },
                _ => {
                    out.push(Action::NotFound { fix: Fix::FsRefreshRate });
                },
            }
        },
        SekiroStep::FramerateCap => {
            push_patch(image, FRAMERATE_CAP_SIG, Fix::FramerateCap, 0, &mut out);
        },
        SekiroStep::CurrentFramerate => {
            push_hook(image, CURRENT_FRAMERATE_SIG, Fix::CurrentFramerate, 0, &mut out);
        },
        SekiroStep::SprintSpeed => {
            push_hook(image, SPRINT_SPEED_SIG, Fix::SprintSpeed, 0, &mut out);
        },
    }
    assert(out@ =~= step_plan(image@, step));
    out
}

/// The resolution section: always hook the current-resolution read; unlock the
/// resolution list and make windowed mode borderless when configured.
pub open spec fn resolution_steps(cfg: Config) -> Seq<SekiroStep> {
    seq![SekiroStep::CurrentResolution] + (if cfg.unlock_res {
        seq![SekiroStep::ResolutionList]
    } else {
        Seq::empty()
    }) + (if cfg.borderless {
        seq![SekiroStep::WindowedModeStyle]
    } else {
        Seq::empty()
    })
}

/// Resolution / borderless.
pub fn resolution(cfg: &Config) -> (r: Vec<SekiroStep>)
    ensures
        r@ == resolution_steps(*cfg),
{
    let mut out: Vec<SekiroStep> = vec![SekiroStep::CurrentResolution];
    if cfg.unlock_res {
        out.push(SekiroStep::ResolutionList);
    }
    if cfg.borderless {
        out.push(SekiroStep::WindowedModeStyle);
    }
    assert(out@ =~= resolution_steps(*cfg));
    out
}

/// The aspect-ratio section, when the aspect fix is on: animation culling,
/// then the awareness markers.
pub open spec fn aspect_ratio_steps(cfg: Config) -> Seq<SekiroStep> {
    if cfg.fix_aspect {
        seq![SekiroStep::AnimationCulling, SekiroStep::AwarenessMarkers]
    } else {
        Seq::empty()
    }
}

/// Aspect ratio.
pub fn aspect_ratio(cfg: &Config) -> (r: Vec<SekiroStep>)
    ensures
        r@ == aspect_ratio_steps(*cfg),
{
    if cfg.fix_aspect {
        vec![SekiroStep::AnimationCulling, SekiroStep::AwarenessMarkers]
    } else {
        Vec::new()
    }
}

/// The FOV section, when the multiplier is not 1: hook the FOV computation.
pub open spec fn fov_steps(fov_changed: bool) -> Seq<SekiroStep> {
    if fov_changed {
        seq![SekiroStep::GameplayFov]
    } else {
        Seq::empty()
    }
}

/// FOV. `fov_changed` says whether the configured multiplier differs from 1.
pub fn fov(fov_changed: bool) -> (r: Vec<SekiroStep>)
    ensures
        r@ == fov_steps(fov_changed),
{
    if fov_changed {
        vec![SekiroStep::GameplayFov]
    } else {
        Vec::new()
    }
}

/// The HUD section, when the HUD fix is on: hook the Scaleform setup.
pub open spec fn hud_steps(cfg: Config) -> Seq<SekiroStep> {
    if cfg.fix_hud {
        seq![SekiroStep::Hud]
    } else {
        Seq::empty()
    }
}

/// HUD (vignettes / fades).
pub fn hud(cfg: &Config) -> (r: Vec<SekiroStep>)
    ensures
        r@ == hud_steps(*cfg),
{
    if cfg.fix_hud {
        vec![SekiroStep::Hud]
    } else {
        Vec::new()
    }
}

/// The framerate section, when the unlock is on: the refresh-rate pair, the
/// cap, and the frame-time and sprint-speed hooks.
pub open spec fn framerate_steps(cfg: Config) -> Seq<SekiroStep> {
    if cfg.unlock_fps {
        seq![
            SekiroStep::RefreshRates,
            SekiroStep::FramerateCap,
            SekiroStep::CurrentFramerate,
            SekiroStep::SprintSpeed,
        ]
    } else {
        Seq::empty()
    }
}

/// Framerate.
pub fn framerate(cfg: &Config) -> (r: Vec<SekiroStep>)
    ensures
        r@ == framerate_steps(*cfg),
{
    if cfg.unlock_fps {
        vec![
            SekiroStep::RefreshRates,
            SekiroStep::FramerateCap,
            SekiroStep::CurrentFramerate,
            SekiroStep::SprintSpeed,
        ]
    } else {
        Vec::new()
    }
}

/// Where each step writes, by signature: the current-resolution hook sits 2
/// bytes after its match and the FOV hook 8; the vertical awareness hook sits
/// 0x2A after the horizontal one; the refresh-rate patches sit 3 bytes in;
/// every other hook or patch sits at its signature's first match. A step whose
/// signature (or either of a pair) is missing reports it and writes nothing.
pub proof fn lemma_step_sites(img: Seq<u8>)
    ensures
        find_signature(img, READY_SIG@) matches Some(p) ==> step_plan(
            img,
            SekiroStep::CurrentResolution,
        ) == seq![Action::Hook { fix: Fix::CurrentResolution, offset: (p + 2) as usize }],
        find_signature(img, READY_SIG@) is None ==> step_plan(img, SekiroStep::CurrentResolution)
            == seq![Action::NotFound { fix: Fix::CurrentResolution }],
        find_signature(img, RESOLUTION_LIST_SIG@) matches Some(p) ==> step_plan(
            img,
            SekiroStep::ResolutionList,
        ) == seq![Action::Patch { fix: Fix::ResolutionList, found: p as usize, offset: p as usize }],
        find_signature(img, RESOLUTION_LIST_SIG@) is None ==> step_plan(
            img,
            SekiroStep::ResolutionList,
        ) == seq![Action::NotFound { fix: Fix::ResolutionList }],
        find_signature(img, WINDOWED_STYLE_SIG@) matches Some(p) ==> step_plan(
            img,
            SekiroStep::WindowedModeStyle,
        ) == seq![
            Action::Patch { fix: Fix::WindowedModeStyle, found: p as usize, offset: p as usize },
        ],
        find_signature(img, WINDOWED_STYLE_SIG@) is None ==> step_plan(
            img,
            SekiroStep::WindowedModeStyle,
        ) == seq![Action::NotFound { fix: Fix::WindowedModeStyle }],
        find_signature(img, ANIMATION_CULLING_SIG@) matches Some(p) ==> step_plan(
            img,
            SekiroStep::AnimationCulling,
        ) == seq![Action::Hook { fix: Fix::AnimationCulling, offset: p as usize }],
        find_signature(img, ANIMATION_CULLING_SIG@) is None ==> step_plan(
            img,
            SekiroStep::AnimationCulling,
        ) == seq![Action::NotFound { fix: Fix::AnimationCulling }],
        find_signature(img, AWARENESS_TRANSITION_SIG@) matches Some(t) ==> (find_signature(
            img,
            AWARENESS_CULLING_SIG@,
        ) matches Some(c) ==> step_plan(img, SekiroStep::AwarenessMarkers) == seq![
            Action::Hook { fix: Fix::AwarenessTransitionHor, offset: t as usize },
            Action::Hook { fix: Fix::AwarenessTransitionVert, offset: (t + 0x2A) as usize },
            Action::Hook { fix: Fix::AwarenessCulling, offset: c as usize },
        ]),
        (find_signature(img, AWARENESS_TRANSITION_SIG@) is None || find_signature(
            img,
            AWARENESS_CULLING_SIG@,
        ) is None) ==> step_plan(img, SekiroStep::AwarenessMarkers) == seq![
            Action::NotFound { fix: Fix::AwarenessMarkers },
        ],
        find_signature(img, FOV_SIG@) matches Some(p) ==> step_plan(img, SekiroStep::GameplayFov)
            == seq![Action::Hook { fix: Fix::GameplayFov, offset: (p + 8) as usize }],
        find_signature(img, FOV_SIG@) is None ==> step_plan(img, SekiroStep::GameplayFov) == seq![
            Action::NotFound { fix: Fix::GameplayFov },
        ],
        find_signature(img, HUD_SIG@) matches Some(p) ==> step_plan(img, SekiroStep::Hud) == seq![
            Action::Hook { fix: Fix::HudScaleform, offset: p as usize },
        ],
        find_signature(img, HUD_SIG@) is None ==> step_plan(img, SekiroStep::Hud) == seq![
            Action::NotFound { fix: Fix::HudScaleform },
        ],
        find_signature(img, FS_REFRESH_RATE_SIG@) matches Some(a) ==> (find_signature(
            img,
            FS_REFRESH_RATE_STARTUP_SIG@,
        ) matches Some(b) ==> step_plan(img, SekiroStep::RefreshRates) == seq![
            Action::Patch { fix: Fix::FsRefreshRate, found: a as usize, offset: (a + 3) as usize },
            Action::Patch {
                fix: Fix::FsRefreshRateStartup,
                found: b as usize,
                offset: (b + 3) as usize,
            },
        ]),
        (find_signature(img, FS_REFRESH_RATE_SIG@) is None || find_signature(
            img,
            FS_REFRESH_RATE_STARTUP_SIG@,
        ) is None) ==> step_plan(img, SekiroStep::RefreshRates) == seq![
            Action::NotFound { fix: Fix::FsRefreshRate },
        ],
        find_signature(img, FRAMERATE_CAP_SIG@) matches Some(p) ==> step_plan(
            img,
            SekiroStep::FramerateCap,
        ) == seq![Action::Patch { fix: Fix::FramerateCap, found: p as usize, offset: p as usize }],
        find_signature(img, FRAMERATE_CAP_SIG@) is None ==> step_plan(
            img,
            SekiroStep::FramerateCap,
        ) == seq![Action::NotFound { fix: Fix::FramerateCap }],
        find_signature(img, CURRENT_FRAMERATE_SIG@) matches Some(p) ==> step_plan(
            img,
            SekiroStep::CurrentFramerate,
        ) == seq![Action::Hook { fix: Fix::CurrentFramerate, offset: p as usize }],
        find_signature(img, CURRENT_FRAMERATE_SIG@) is None ==> step_plan(
            img,
            SekiroStep::CurrentFramerate,
        ) == seq![Action::NotFound { fix: Fix::CurrentFramerate }],
        find_signature(img, SPRINT_SPEED_SIG@) matches Some(p) ==> step_plan(
            img,
            SekiroStep::SprintSpeed,
        ) == seq![Action::Hook { fix: Fix::SprintSpeed, offset: p as usize }],
        find_signature(img, SPRINT_SPEED_SIG@) is None ==> step_plan(img, SekiroStep::SprintSpeed)
            == seq![Action::NotFound { fix: Fix::SprintSpeed }],
{
}

/// Which steps each section takes, by setting: the resolution section always
/// hooks the current resolution, then unlocks the list exactly when the
/// resolution unlock is on and drops the window border exactly when borderless
/// is on, each independently of the other; aspect ratio, HUD and framerate
/// take all their steps when their fix is on and none otherwise; FOV hooks
/// exactly when the multiplier changed.
pub proof fn lemma_section_steps(cfg: Config, fov_changed: bool)
    ensures
        resolution_steps(cfg) == (if cfg.unlock_res && cfg.borderless {
            seq![
                SekiroStep::CurrentResolution,
                SekiroStep::ResolutionList,
                SekiroStep::WindowedModeStyle,
            ]
        } else if cfg.unlock_res {
            seq![SekiroStep::CurrentResolution, SekiroStep::ResolutionList]
        } else if cfg.borderless {
            seq![SekiroStep::CurrentResolution, SekiroStep::WindowedModeStyle]
        } else {
            seq![SekiroStep::CurrentResolution]
        }),
        resolution_steps(cfg).contains(SekiroStep::ResolutionList) <==> cfg.unlock_res,
        resolution_steps(cfg).contains(SekiroStep::WindowedModeStyle) <==> cfg.borderless,
        resolution_steps(cfg).contains(SekiroStep::CurrentResolution),
        aspect_ratio_steps(cfg) == (if cfg.fix_aspect {
            seq![SekiroStep::AnimationCulling, SekiroStep::AwarenessMarkers]
        } else {
            Seq::<SekiroStep>::empty()
        }),
        fov_steps(fov_changed) == (if fov_changed {
            seq![SekiroStep::GameplayFov]
        } else {
            Seq::<SekiroStep>::empty()
        }),
        hud_steps(cfg) == (if cfg.fix_hud {
            seq![SekiroStep::Hud]
        } else {
            Seq::<SekiroStep>::empty()
        }),
        framerate_steps(cfg) == (if cfg.unlock_fps {
            seq![
                SekiroStep::RefreshRates,
                SekiroStep::FramerateCap,
                SekiroStep::CurrentFramerate,
                SekiroStep::SprintSpeed,
            ]
        } else {
            Seq::<SekiroStep>::empty()
        }),
{
    let r = resolution_steps(cfg);
    if cfg.unlock_res && cfg.borderless {
        assert(r =~= seq![
            SekiroStep::CurrentResolution,
            SekiroStep::ResolutionList,
            SekiroStep::WindowedModeStyle,
        ]);
        assert(r[1] == SekiroStep::ResolutionList);
        assert(r[2] == SekiroStep::WindowedModeStyle);
    } else if cfg.unlock_res {
        assert(r =~= seq![SekiroStep::CurrentResolution, SekiroStep::ResolutionList]);
        assert(r[1] == SekiroStep::ResolutionList);
    } else if cfg.borderless {
        assert(r =~= seq![SekiroStep::CurrentResolution, SekiroStep::WindowedModeStyle]);
        assert(r[1] == SekiroStep::WindowedModeStyle);
    } else {
        assert(r =~= seq![SekiroStep::CurrentResolution]);
    }
    assert(r[0] == SekiroStep::CurrentResolution);
}

/// The names of the Scaleform effects stretched to fill the screen.
pub open spec fn is_fullscreen_effect_spec(name: Seq<char>) -> bool {
    ||| crate::text::find_sub(name, "01_201_stealtheffect.gfx"@) is Some
    ||| crate::text::find_sub(name, "01_200_dyingeffect.gfx"@) is Some
    ||| crate::text::find_sub(name, "01_910_fade.gfx"@) is Some
    ||| crate::text::find_sub(name, "01_900_black.gfx"@) is Some
}

fn contains_str(hay: &[char], needle: &str) -> (r: bool)
    ensures
        r == (crate::text::find_sub(hay@, needle@) is Some),
{
    let n = crate::text::chars_of(needle);
    crate::text::find_sub_exec(hay, &n).is_some()
}

/// Whether a Scaleform movie is one of the screen vignettes or fades that the
/// HUD fix stretches to the full screen.
pub fn is_fullscreen_effect(name: &str) -> (r: bool)
    ensures
        r == is_fullscreen_effect_spec(name@),
{
    let v = crate::text::chars_of(name);
    contains_str(&v, "01_201_stealtheffect.gfx") || contains_str(&v, "01_200_dyingeffect.gfx")
        || contains_str(&v, "01_910_fade.gfx") || contains_str(&v, "01_900_black.gfx")
}

/// The current-resolution hook reads the width from `rax` and the height
/// from `r9` (low 32 bits, signed); a changed resolution is returned so the
/// layout can be recomputed.
pub fn resolution_update(cur_x: i32, cur_y: i32, rax: u64, r9: u64) -> (r: Option<(i32, i32)>)
    ensures
        r == (if (rax as i32) != cur_x || (r9 as i32) != cur_y {
            Some((rax as i32, r9 as i32))
        } else {
            None
        }),
{
    let x = rax as i32;
    let y = r9 as i32;
    if cur_x != x || cur_y != y {
        Some((x, y))
    } else {
        None
    }
}

/// The zero flag (bit 6) of `rflags`.
pub const ZERO_FLAG: u64 = 0x40;

/// The flags the current-resolution hook leaves: with the aspect fix on, the
/// zero flag is set so the game's jump skips its forced scaling to 16:9;
/// every other bit stays as it was.
pub fn current_resolution_rflags(rflags: u64, fix_aspect: bool) -> (r: u64)
    ensures
        r == (if fix_aspect {
            rflags | ZERO_FLAG
        } else {
            rflags
        }),
        fix_aspect ==> r & ZERO_FLAG == ZERO_FLAG,
        !fix_aspect ==> r == rflags,
        r & !ZERO_FLAG == rflags & !ZERO_FLAG,
{
    if fix_aspect {
        let r = rflags | ZERO_FLAG;
        assert((rflags | 0x40u64) & 0x40u64 == 0x40u64) by (bit_vector);
        assert((rflags | 0x40u64) & !0x40u64 == rflags & !0x40u64) by (bit_vector);
        r
    } else {
        rflags
    }
}

} // verus!
