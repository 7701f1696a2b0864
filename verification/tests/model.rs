use focuswm::model::{WindowId, WindowInfo};

#[test]
fn label_prefers_title_then_app_id() {
    let mut w = WindowInfo::new(WindowId(1));
    assert_eq!(w.label(), "(untitled)");
    w.app_id = "foot".into();
    assert_eq!(w.label(), "foot");
    w.title = "vim".into();
    assert_eq!(w.label(), "vim");
}

#[test]
fn window_ids_are_ordered() {
    assert!(WindowId(1) < WindowId(2));
}
