use murali::animation::{
    Ease, PathCleanup, RevealText, TriggerCapture, UnrevealText, UnwritePath, UnwriteText,
    WritePath, WriteText,
};

#[test]
fn ease_defaults_to_linear() {
    assert_eq!(Ease::default(), Ease::Linear);
}

#[test]
fn trigger_capture_keeps_target() {
    let t = TriggerCapture::new(42);
    assert_eq!(t.target_id, 42);
}

#[test]
fn text_animations_keep_target_and_ease() {
    let a = WriteText::new(1, Ease::InQuad);
    assert_eq!((a.target_id, a.ease), (1, Ease::InQuad));
    let b = UnwriteText::new(2, Ease::OutQuad);
    assert_eq!((b.target_id, b.ease), (2, Ease::OutQuad));
    let c = RevealText::new(3, Ease::InOutCubic);
    assert_eq!((c.target_id, c.ease), (3, Ease::InOutCubic));
    let d = UnrevealText::new(4, Ease::InOutSmooth);
    assert_eq!((d.target_id, d.ease), (4, Ease::InOutSmooth));
}

#[test]
fn write_path_drives_its_target_until_a_shadow_is_added() {
    let mut w = WritePath::new(7, Ease::Linear);
    assert_eq!(w.target_id, 7);
    assert_eq!(w.active_id(), 7);
    w.start_with_shadow(false, 99);
    assert_eq!(w.active_id(), 99);
}

#[test]
fn write_path_shadow_cleanup_restores_visibility() {
    let mut w = WritePath::new(7, Ease::Linear);
    w.start_with_shadow(false, 99);
    let c = w.cleanup();
    assert_eq!(c, PathCleanup { remove_shadow: Some(99), restore_visibility: Some(false) });
    assert_eq!(w.active_id(), 7);
    // A second cleanup has nothing left to undo.
    assert_eq!(w.cleanup(), PathCleanup { remove_shadow: None, restore_visibility: None });
}

#[test]
fn write_path_on_path_target_restores_recorded_visibility() {
    let mut w = WritePath::new(3, Ease::OutCubic);
    w.start_on_path(true);
    assert_eq!(w.active_id(), 3);
    // Finishing a direct path does not clean up.
    assert_eq!(w.finish(), None);
    assert_eq!(w.cleanup(), PathCleanup { remove_shadow: None, restore_visibility: Some(true) });
}

#[test]
fn write_path_finish_with_shadow_cleans_up() {
    let mut w = WritePath::new(5, Ease::Linear);
    w.start_with_shadow(true, 11);
    assert_eq!(
        w.finish(),
        Some(PathCleanup { remove_shadow: Some(11), restore_visibility: Some(true) })
    );
    assert_eq!(w.active_id(), 5);
    assert_eq!(w.finish(), None);
}

#[test]
fn fresh_write_path_cleanup_is_empty() {
    let mut w = WritePath::new(0, Ease::Linear);
    assert_eq!(w.cleanup(), PathCleanup { remove_shadow: None, restore_visibility: None });
}

#[test]
fn unwrite_path_shadow_cycle() {
    let mut u = UnwritePath::new(8, Ease::InQuad);
    assert_eq!(u.active_id(), 8);
    u.start_with_shadow(true, 20);
    assert_eq!(u.active_id(), 20);
    assert_eq!(
        u.cleanup(),
        PathCleanup { remove_shadow: Some(20), restore_visibility: Some(true) }
    );
    assert_eq!(u.active_id(), 8);
    assert_eq!(u.cleanup(), PathCleanup { remove_shadow: None, restore_visibility: None });
}

#[test]
fn path_animation_fields_are_visible() {
    let mut w = WritePath::new(6, Ease::InCubic);
    assert_eq!((w.target_id, w.ease, w.shadow_id, w.original_visibility), (6, Ease::InCubic, None, None));
    w.start_with_shadow(true, 12);
    assert_eq!((w.shadow_id, w.original_visibility), (Some(12), Some(true)));
    let u = UnwritePath::new(2, Ease::Linear);
    assert_eq!((u.target_id, u.shadow_id), (2, None));
}
