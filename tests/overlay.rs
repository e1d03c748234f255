use monitor_blank::framebuffer::{buffer_layout, fill_black, BLACK};
use monitor_blank::overlay::{
    Capability, CursorAction, DrawRequest, PointerInput, PointerKind, SimpleLayer, KEY_ESCAPE,
};

type Session = SimpleLayer<&'static str, u8, u16>;

fn session(names: &[&str]) -> Session {
    SimpleLayer::new(names.iter().map(|n| n.to_string()).collect())
}

fn advertise(s: &mut Session, output: u32, name: &str, surface: u32) -> bool {
    let name = Some(name.to_string());
    if s.new_output(output, &name) {
        s.create_layer(output, name, surface, "layer")
    } else {
        false
    }
}

#[test]
fn selected_output_gets_one_overlay() {
    let mut s = session(&["DP-1"]);
    assert!(advertise(&mut s, 10, "DP-1", 100));
    assert!(!advertise(&mut s, 10, "DP-1", 101));
    assert_eq!(s.active_layers.len(), 1);
    let t = &s.active_layers[0];
    assert_eq!(t.output, 10);
    assert_eq!(t.surface, 100);
    assert_eq!(t.output_name.as_deref(), Some("DP-1"));
    assert_eq!((t.width, t.height, t.needs_redraw), (0, 0, true));
}

#[test]
fn unselected_or_unnamed_output_gets_none() {
    let mut s = session(&["DP-1"]);
    assert!(!advertise(&mut s, 11, "HDMI-A-1", 100));
    assert!(!advertise(&mut s, 12, "DP-10", 101));
    assert!(!s.new_output(13, &None));
    assert_eq!(s.active_layers.len(), 0);
}

#[test]
fn create_layer_refuses_tracked_surface() {
    let mut s = session(&["DP-1", "DP-2"]);
    assert!(advertise(&mut s, 10, "DP-1", 100));
    assert!(!s.create_layer(20, Some("DP-2".to_string()), 100, "other"));
    assert_eq!(s.active_layers.len(), 1);
}

#[test]
fn no_draw_before_size_is_known() {
    let mut s = session(&["DP-1"]);
    advertise(&mut s, 10, "DP-1", 100);
    assert!(s.draw().is_empty());
    assert!(s.configure(100, 0, 0).is_empty());
    assert!(s.configure(100, 1920, 0).is_empty());
    assert!(s.active_layers[0].needs_redraw);
}

#[test]
fn resize_draws_once_at_exact_size_in_black() {
    let mut s = session(&["DP-1"]);
    advertise(&mut s, 10, "DP-1", 100);
    let draws = s.configure(100, 1920, 1080);
    assert_eq!(draws, vec![DrawRequest { surface: 100, width: 1920, height: 1080 }]);
    assert!(!s.active_layers[0].needs_redraw);
    assert!(s.draw().is_empty());
    let layout = buffer_layout(1920, 1080).unwrap();
    assert_eq!((layout.width, layout.height, layout.stride), (1920, 1080, 7680));
    assert_eq!(layout.len, 1920 * 1080 * 4);
    let mut canvas = vec![0x55u8; layout.len];
    fill_black(&mut canvas);
    assert!(canvas.chunks_exact(4).all(|p| p == BLACK.to_le_bytes()));
}

#[test]
fn same_size_again_owes_no_frame() {
    let mut s = session(&["DP-1"]);
    advertise(&mut s, 10, "DP-1", 100);
    assert_eq!(s.configure(100, 800, 600).len(), 1);
    assert!(s.configure(100, 800, 600).is_empty());
    assert_eq!(
        s.configure(100, 1024, 768),
        vec![DrawRequest { surface: 100, width: 1024, height: 768 }]
    );
    assert_eq!((s.active_layers[0].width, s.active_layers[0].height), (1024, 768));
}

#[test]
fn configure_of_unknown_surface_repaints_only_debts() {
    let mut s = session(&["DP-1"]);
    advertise(&mut s, 10, "DP-1", 100);
    assert!(s.configure(999, 640, 480).is_empty());
    assert_eq!(s.active_layers[0].width, 0);
}

#[test]
fn dismiss_all_twice() {
    let mut s = session(&["DP-1", "DP-2"]);
    advertise(&mut s, 10, "DP-1", 100);
    advertise(&mut s, 20, "DP-2", 200);
    s.remove_all_layers();
    assert_eq!(s.active_layers.len(), 0);
    s.remove_all_layers();
    assert_eq!(s.active_layers.len(), 0);
    assert!(!s.exit);
}

#[test]
fn escape_dismisses_both_overlays() {
    let mut s = session(&["DP-1", "DP-2"]);
    advertise(&mut s, 10, "DP-1", 100);
    advertise(&mut s, 20, "DP-2", 200);
    s.press_key(0x61);
    assert_eq!(s.active_layers.len(), 2);
    s.press_key(KEY_ESCAPE);
    assert!(s.active_layers.is_empty());
}

#[test]
fn removed_output_loses_its_overlay() {
    let mut s = session(&["DP-1", "DP-2"]);
    advertise(&mut s, 10, "DP-1", 100);
    advertise(&mut s, 20, "DP-2", 200);
    s.output_destroyed(10);
    assert_eq!(s.active_layers.len(), 1);
    assert_eq!(s.active_layers[0].output, 20);
    assert!(s.configure(100, 1920, 1080).is_empty());
    s.output_destroyed(10);
    assert_eq!(s.active_layers.len(), 1);
}

#[test]
fn closed_surface_loses_its_overlay() {
    let mut s = session(&["DP-1", "DP-2"]);
    advertise(&mut s, 10, "DP-1", 100);
    advertise(&mut s, 20, "DP-2", 200);
    s.closed(200);
    assert_eq!(s.active_layers.len(), 1);
    assert_eq!(s.active_layers[0].surface, 100);
}

#[test]
fn keyboard_focus_follows_overlays() {
    let mut s = session(&["DP-1"]);
    advertise(&mut s, 10, "DP-1", 100);
    s.enter(555);
    assert!(!s.keyboard_focus);
    s.enter(100);
    assert!(s.keyboard_focus);
    s.leave(555);
    assert!(s.keyboard_focus);
    s.leave(100);
    assert!(!s.keyboard_focus);
}

#[test]
fn pointer_hides_cursor_over_overlays() {
    let mut s = session(&["DP-1"]);
    advertise(&mut s, 10, "DP-1", 100);
    let events = vec![
        PointerInput { surface: 100, kind: PointerKind::Enter },
        PointerInput { surface: 100, kind: PointerKind::Motion },
        PointerInput { surface: 7, kind: PointerKind::Enter },
        PointerInput { surface: 100, kind: PointerKind::Press },
        PointerInput { surface: 100, kind: PointerKind::Leave },
    ];
    assert_eq!(s.pointer_frame(&events), vec![CursorAction::Hide, CursorAction::Reset]);
}

#[test]
fn devices_are_acquired_once_and_released() {
    let mut s = session(&["DP-1"]);
    assert!(s.new_capability(Capability::Keyboard));
    assert!(s.new_capability(Capability::Pointer));
    assert!(!s.new_capability(Capability::Touch));
    s.set_keyboard(1);
    s.set_pointer(2);
    assert!(!s.new_capability(Capability::Keyboard));
    assert!(!s.new_capability(Capability::Pointer));
    assert_eq!(s.remove_capability(Capability::Keyboard), (Some(1), None));
    assert_eq!(s.keyboard, None);
    assert_eq!(s.pointer, Some(2));
    assert_eq!(s.remove_capability(Capability::Pointer), (None, Some(2)));
    assert_eq!(s.remove_capability(Capability::Pointer), (None, None));
}
