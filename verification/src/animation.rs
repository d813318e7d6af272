//! Easing kinds and the bookkeeping of scene animations.
use vstd::prelude::*;

verus! {

/// Identifier of a tattva (a drawable object) in a scene.
pub type TattvaId = usize;

/// Common easing curves for deterministic interpolation.
#[derive(Copy, Clone, Debug, PartialEq, Eq, Structural)]
pub enum Ease {
    Linear,
    InQuad,
    OutQuad,
    InOutQuad,
    InCubic,
    OutCubic,
    InOutCubic,
    /// Smoothstep: 3t² - 2t³. Continuous first derivative at 0 and 1.
    InOutSmooth,
}

impl Default for Ease {
    fn default() -> (e: Ease)
        ensures
            e == Ease::Linear,
    {
        Ease::Linear
    }
}

/// Arms a screenshot marker when started.
pub struct TriggerCapture {
    pub target_id: TattvaId,
}

impl TriggerCapture {
    pub fn new(target_id: TattvaId) -> (r: Self)
        ensures
            r.target_id == target_id,
    {
        TriggerCapture { target_id }
    }
}

/// What the scene is asked to undo when a path animation lets go of its
/// target: drop the shadow path it added, and give the target back the
/// visibility it had before the animation started.
#[derive(Clone, Copy, Debug, PartialEq, Eq, Structural)]
pub struct PathCleanup {
    /// The shadow tattva to remove from the scene, if one was added.
    pub remove_shadow: Option<TattvaId>,
    /// The visibility to restore on the target, if one was recorded.
    pub restore_visibility: Option<bool>,
}

/// What a write/unwrite path animation holds: its target and easing, and
/// the bookkeeping it keeps between calls.
pub struct PathAnimationState {
    pub target_id: TattvaId,
    pub ease: Ease,
    /// The shadow path added when the target is not itself a path.
    pub shadow_id: Option<TattvaId>,
    /// The target's visibility when the animation started.
    pub original_visibility: Option<bool>,
}

/// The tattva a path animation trims: its shadow if it has one, else its
/// target.
pub open spec fn driven_id(s: PathAnimationState) -> TattvaId {
    match s.shadow_id {
        Some(id) => id,
        None => s.target_id,
    }
}

/// What a cleanup reports for a given state.
pub open spec fn cleanup_of(s: PathAnimationState) -> PathCleanup {
    PathCleanup { remove_shadow: s.shadow_id, restore_visibility: s.original_visibility }
}

/// A freshly made animation: nothing recorded yet.
pub open spec fn fresh(target_id: TattvaId, ease: Ease) -> PathAnimationState {
    PathAnimationState { target_id, ease, shadow_id: None, original_visibility: None }
}

/// The state once the target was found to be a path, visible or not.
pub open spec fn started_on_path(s: PathAnimationState, visible: bool) -> PathAnimationState {
    PathAnimationState { original_visibility: Some(visible), ..s }
}

/// The state once a shadow path stands in for the target.
pub open spec fn started_with_shadow(s: PathAnimationState, visible: bool, shadow: TattvaId) -> PathAnimationState {
    PathAnimationState { shadow_id: Some(shadow), original_visibility: Some(visible), ..s }
}

/// The state after a cleanup: nothing left to undo.
pub open spec fn cleared(s: PathAnimationState) -> PathAnimationState {
    fresh(s.target_id, s.ease)
}

/// Traces a path outline and fills the completed sector as it is drawn.
pub struct WritePath {
    pub target_id: TattvaId,
    pub ease: Ease,
    /// Set when target is not a Path: shadow tattva owned by this animation
    pub shadow_id: Option<TattvaId>,
    /// Original visibility of the target, preserved so reset/finish can restore it
    pub original_visibility: Option<bool>,
}

impl WritePath {
    /// The target, easing and bookkeeping of this animation.
    pub open spec fn state(&self) -> PathAnimationState {
        PathAnimationState {
            target_id: self.target_id,
            ease: self.ease,
            shadow_id: self.shadow_id,
            original_visibility: self.original_visibility,
        }
    }

    pub fn new(target_id: TattvaId, ease: Ease) -> (r: Self)
        ensures
            r.state() == fresh(target_id, ease),
    {
        WritePath { target_id, ease, shadow_id: None, original_visibility: None }
    }

    /// The tattva to drive the trim on: the shadow if present, else the
    /// target.
    pub fn active_id(&self) -> (r: TattvaId)
        ensures
            r == driven_id(self.state()),
    {
        match self.shadow_id {
            Some(s) => s,
            None => self.target_id,
        }
    }

    /// Start on a target that is itself a path: remember whether it was
    /// visible (the scene then shows it and rewinds its trim).
    pub fn start_on_path(&mut self, visible: bool)
        ensures
            final(self).state() == started_on_path(old(self).state(), visible),
    {
        self.original_visibility = Some(visible);
    }

    /// Start on a target that is drawn through a shadow path `shadow`:
    /// remember the target's visibility (the scene then hides it).
    pub fn start_with_shadow(&mut self, visible: bool, shadow: TattvaId)
        ensures
            final(self).state() == started_with_shadow(old(self).state(), visible, shadow),
    {
        self.original_visibility = Some(visible);
        self.shadow_id = Some(shadow);
    }

    /// Let go of the target: report the shadow to remove and the visibility
    /// to restore, and forget both. Resetting does this.
    pub fn cleanup(&mut self) -> (c: PathCleanup)
        ensures
            c == cleanup_of(old(self).state()),
            final(self).state() == cleared(old(self).state()),
    {
        let c = PathCleanup { remove_shadow: self.shadow_id, restore_visibility: self.original_visibility };
        self.shadow_id = None;
        self.original_visibility = None;
        c
    }

    /// At the end the target is shown; when a shadow stood in for it, the
    /// animation also cleans up, and that cleanup is returned.
    pub fn finish(&mut self) -> (c: Option<PathCleanup>)
        ensures
            old(self).state().shadow_id is Some ==> c == Some(cleanup_of(old(self).state()))
                && final(self).state() == cleared(old(self).state()),
            old(self).state().shadow_id is None ==> c is None && final(self).state() == old(
                self,
            ).state(),
    {
        if self.shadow_id.is_some() {
            Some(self.cleanup())
        } else {
            None
        }
    }
}

/// Erases a path outline from its end, keeping the fill in what remains.
pub struct UnwritePath {
    pub target_id: TattvaId,
    pub ease: Ease,
    /// Set when target is not a Path: shadow tattva owned by this animation
    pub shadow_id: Option<TattvaId>,
    /// Original visibility of the target, preserved so reset/finish can restore it
    pub original_visibility: Option<bool>,
}

impl UnwritePath {
    /// The target, easing and bookkeeping of this animation.
    pub open spec fn state(&self) -> PathAnimationState {
        PathAnimationState {
            target_id: self.target_id,
            ease: self.ease,
            shadow_id: self.shadow_id,
            original_visibility: self.original_visibility,
        }
    }

    pub fn new(target_id: TattvaId, ease: Ease) -> (r: Self)
        ensures
            r.state() == fresh(target_id, ease),
    {
        UnwritePath { target_id, ease, shadow_id: None, original_visibility: None }
    }

    /// The tattva to drive the trim on: the shadow if present, else the
    /// target.
    pub fn active_id(&self) -> (r: TattvaId)
        ensures
            r == driven_id(self.state()),
    {
        match self.shadow_id {
            Some(s) => s,
            None => self.target_id,
        }
    }

    /// Start on a target that is drawn through a shadow path `shadow`:
    /// remember the target's visibility (the scene then hides it). A
    /// target that is itself a path needs no bookkeeping.
    pub fn start_with_shadow(&mut self, visible: bool, shadow: TattvaId)
        ensures
            final(self).state() == started_with_shadow(old(self).state(), visible, shadow),
    {
        self.original_visibility = Some(visible);
        self.shadow_id = Some(shadow);
    }

    /// Let go of the target: report the shadow to remove and the visibility
    /// to restore, and forget both. Finishing and resetting both do this.
    pub fn cleanup(&mut self) -> (c: PathCleanup)
        ensures
            c == cleanup_of(old(self).state()),
            final(self).state() == cleared(old(self).state()),
    {
        let c = PathCleanup { remove_shadow: self.shadow_id, restore_visibility: self.original_visibility };
        self.shadow_id = None;
        self.original_visibility = None;
        c
    }
}

/// Law: a path animation that drew its target through a shadow gives the
/// scene back what it found. Its cleanup removes that shadow and restores
/// the visibility the target had at the start; afterwards it trims its own
/// target again, keeps its target and easing, and a second cleanup has
/// nothing left to undo.
pub proof fn lemma_shadow_cleanup_restores(s: PathAnimationState, visible: bool, shadow: TattvaId)
    ensures
        driven_id(started_with_shadow(s, visible, shadow)) == shadow,
        cleanup_of(started_with_shadow(s, visible, shadow)) == (PathCleanup {
            remove_shadow: Some(shadow),
            restore_visibility: Some(visible),
        }),
        cleared(started_with_shadow(s, visible, shadow)) == fresh(s.target_id, s.ease),
        driven_id(cleared(s)) == s.target_id,
        cleanup_of(cleared(s)) == (PathCleanup { remove_shadow: None, restore_visibility: None }),
{
}

/// Law: on a target that is itself a path, the visibility recorded at the
/// start is the one a later cleanup restores, the target is trimmed
/// directly, and no shadow is removed.
pub proof fn lemma_path_cleanup_restores(target_id: TattvaId, ease: Ease, visible: bool)
    ensures
        driven_id(started_on_path(fresh(target_id, ease), visible)) == target_id,
        cleanup_of(started_on_path(fresh(target_id, ease), visible)) == (PathCleanup {
            remove_shadow: None,
            restore_visibility: Some(visible),
        }),
{
}

/// Types text out character by character (typewriter effect).
pub struct WriteText {
    pub target_id: TattvaId,
    pub ease: Ease,
}

impl WriteText {
    pub fn new(target_id: TattvaId, ease: Ease) -> (r: Self)
        ensures
            r.target_id == target_id,
            r.ease == ease,
    {
        WriteText { target_id, ease }
    }
}

/// Hides text character by character (reverse typewriter effect).
pub struct UnwriteText {
    pub target_id: TattvaId,
    pub ease: Ease,
}

impl UnwriteText {
    pub fn new(target_id: TattvaId, ease: Ease) -> (r: Self)
        ensures
            r.target_id == target_id,
            r.ease == ease,
    {
        UnwriteText { target_id, ease }
    }
}

/// Reveals text from its centre outwards, shifting as characters appear.
pub struct RevealText {
    pub target_id: TattvaId,
    pub ease: Ease,
}

impl RevealText {
    pub fn new(target_id: TattvaId, ease: Ease) -> (r: Self)
        ensures
            r.target_id == target_id,
            r.ease == ease,
    {
        RevealText { target_id, ease }
    }
}

/// Hides text towards its centre, shifting as characters disappear.
pub struct UnrevealText {
    pub target_id: TattvaId,
    pub ease: Ease,
}

impl UnrevealText {
    pub fn new(target_id: TattvaId, ease: Ease) -> (r: Self)
        ensures
            r.target_id == target_id,
            r.ease == ease,
    {
        UnrevealText { target_id, ease }
    }
}

} // verus!
