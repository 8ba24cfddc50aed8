//! What a fix does to the game image: byte patches and mid-function hooks at
//! offsets found by signature, or a report that a signature was not found.
use vstd::prelude::*;
use crate::memory::{find_signature, pattern_scan};

verus! {

/// The code sites the fixes touch, one per patch, hook or failed scan.
#[derive(Clone, Copy, PartialEq, Eq, Structural, Debug)]
pub enum Fix {
    /// Sekiro: the hook that reads the current resolution.
    CurrentResolution,
    /// Sekiro: the check that filters the windowed resolution list.
    ResolutionList,
    /// Sekiro: the branch that gives windowed mode its border.
    WindowedModeStyle,
    /// Sekiro: the aspect ratio used by animation culling.
    AnimationCulling,
    /// Sekiro: both awareness-marker sites (reported when either is missing).
    AwarenessMarkers,
    /// Sekiro: horizontal awareness-marker transition.
    AwarenessTransitionHor,
    /// Sekiro: vertical awareness-marker transition.
    AwarenessTransitionVert,
    /// Sekiro: awareness-marker culling.
    AwarenessCulling,
    /// Sekiro: the gameplay field of view.
    GameplayFov,
    /// Sekiro: Scaleform HUD effects.
    HudScaleform,
    /// Sekiro: the fullscreen refresh rate (also names the failed pair).
    FsRefreshRate,
    /// Sekiro: the fullscreen refresh rate used at startup.
    FsRefreshRateStartup,
    /// Sekiro: the frame-rate cap.
    FramerateCap,
    /// Sekiro: the hook that reads the current frame time.
    CurrentFramerate,
    /// Sekiro: the sprint speed scaling.
    SprintSpeed,
    /// Dark Souls III: the intro-movie load calls.
    SkipIntro,
}

/// One step of a fix.
#[derive(Clone, Copy, PartialEq, Eq, Structural, Debug)]
pub enum Action {
    /// Overwrite the fix's patch bytes at `offset`; its signature matched at `found`.
    Patch { fix: Fix, found: usize, offset: usize },
    /// Install the fix's jmp-back hook at `offset`.
    Hook { fix: Fix, offset: usize },
    /// The fix's signature (or one of its signatures) was not found.
    NotFound { fix: Fix },
}

/// The bytes a patch writes.
pub open spec fn patch_of(fix: Fix) -> Seq<u8> {
    match fix {
        Fix::ResolutionList => seq![0x90u8, 0x90, 0x90, 0x90, 0x90, 0x90],
        Fix::WindowedModeStyle => seq![0x90u8, 0x90],
        Fix::FsRefreshRate => seq![0x00u8],
        Fix::FsRefreshRateStartup => seq![0x00u8],
        // movss xmm0,[rbx+18] -> xorps xmm0,xmm0
        Fix::FramerateCap => seq![0x0Fu8, 0x57, 0xC0, 0x90, 0x90],
        // xor rax,rax; mov [rdx],rax; mov [r12],rax; then NOPs: skip loading the logo movies.
        Fix::SkipIntro => seq![
            0x48u8, 0x31, 0xC0, 0x48, 0x89, 0x02, 0x49, 0x89, 0x04, 0x24, 0x90, 0x90, 0x90,
            0x90, 0x90, 0x90, 0x90, 0x90, 0x90, 0x90,
        ],
        _ => Seq::empty(),
    }
}

/// The bytes of each patch: six NOPs over the resolution-list jump (`jz rel32`),
/// two NOPs over both bytes of the windowed-style `jz rel8`, a zero over the
/// low byte of each refresh rate's 60, `xorps xmm0,xmm0` and two NOPs over the
/// frame-rate cap load, and the intro-skip stub; a hook writes no patch bytes.
pub proof fn lemma_patch_bytes()
    ensures
        patch_of(Fix::ResolutionList) == seq![0x90u8, 0x90, 0x90, 0x90, 0x90, 0x90],
        patch_of(Fix::WindowedModeStyle) == seq![0x90u8, 0x90],
        patch_of(Fix::WindowedModeStyle).len() == 2,
        patch_of(Fix::FsRefreshRate) == seq![0x00u8],
        patch_of(Fix::FsRefreshRateStartup) == seq![0x00u8],
        patch_of(Fix::FramerateCap) == seq![0x0Fu8, 0x57, 0xC0, 0x90, 0x90],
        patch_of(Fix::SkipIntro) == seq![
            0x48u8, 0x31, 0xC0, 0x48, 0x89, 0x02, 0x49, 0x89, 0x04, 0x24, 0x90, 0x90, 0x90,
            0x90, 0x90, 0x90, 0x90, 0x90, 0x90, 0x90,
        ],
        patch_of(Fix::SkipIntro).len() == 20,
        forall|f: Fix|
            #![trigger patch_of(f)]
            f != Fix::ResolutionList && f != Fix::WindowedModeStyle && f != Fix::FsRefreshRate
                && f != Fix::FsRefreshRateStartup && f != Fix::FramerateCap && f != Fix::SkipIntro
                ==> patch_of(f).len() == 0,
{
}

impl Fix {
    /// The bytes this fix's patch writes (none for a hook).
    pub fn patch_bytes(&self) -> (r: Vec<u8>)
        ensures
            r@ == patch_of(*self),
    {
        let r: Vec<u8> = match self {
            Fix::ResolutionList => vec![0x90u8, 0x90, 0x90, 0x90, 0x90, 0x90],
            Fix::WindowedModeStyle => vec![0x90u8, 0x90],
            Fix::FsRefreshRate => vec![0x00u8],
            Fix::FsRefreshRateStartup => vec![0x00u8],
            Fix::FramerateCap => vec![0x0Fu8, 0x57, 0xC0, 0x90, 0x90],
            Fix::SkipIntro => vec![
                0x48u8, 0x31, 0xC0, 0x48, 0x89, 0x02, 0x49, 0x89, 0x04, 0x24, 0x90, 0x90, 0x90,
                0x90, 0x90, 0x90, 0x90, 0x90, 0x90, 0x90,
            ],
            _ => Vec::new(),
        };
        assert(r@ == patch_of(*self));
        r
    }
}

/// A hook `delta` bytes after the signature's match, or a report that it is missing.
pub open spec fn hook_or_missing(img: Seq<u8>, sig: Seq<char>, fix: Fix, delta: int) -> Seq<
    Action,
> {
    match find_signature(img, sig) {
        Some(p) => seq![Action::Hook { fix, offset: (p + delta) as usize }],
        None => seq![Action::NotFound { fix }],
    }
}

/// A patch `delta` bytes after the signature's match, or a report that it is missing.
pub open spec fn patch_or_missing(img: Seq<u8>, sig: Seq<char>, fix: Fix, delta: int) -> Seq<
    Action,
> {
    match find_signature(img, sig) {
        Some(p) => seq![Action::Patch { fix, found: p as usize, offset: (p + delta) as usize }],
        None => seq![Action::NotFound { fix }],
    }
}

pub(crate) fn push_hook(image: &[u8], sig: &str, fix: Fix, delta: usize, out: &mut Vec<Action>)
    requires
        image@.len() <= isize::MAX,
        delta <= 0x40,
    ensures
        final(out)@ == old(out)@ + hook_or_missing(image@, sig@, fix, delta as int),
{
    match pattern_scan(image, sig) {
        Some(p) => out.push(Action::Hook { fix, offset: p + delta }),
        None => out.push(Action::NotFound { fix }),
    }
}

pub(crate) fn push_patch(image: &[u8], sig: &str, fix: Fix, delta: usize, out: &mut Vec<Action>)
    requires
        image@.len() <= isize::MAX,
        delta <= 0x40,
    ensures
        final(out)@ == old(out)@ + patch_or_missing(image@, sig@, fix, delta as int),
{
    match pattern_scan(image, sig) {
        Some(p) => out.push(Action::Patch { fix, found: p, offset: p + delta }),
        None => out.push(Action::NotFound { fix }),
    }
}

} // verus!
