use focuswm::egl::{
    dmabuf_frame, import_attribs, offered_formats, DmabufFrame, Frame, GlBridge, Texture,
    ARGB8888, MOD_INVALID, MOD_LINEAR, XRGB8888,
};
use focuswm::engine::{
    Action, Commit, CommitKind, DmabufFrame as Attached, Drain, FocusState, SizeHints,
};
use focuswm::event::{Command, DmabufPlane, Event};
use focuswm::frame::{Attachment, Rect, SurfaceNode};
use focuswm::model::WindowId;
use focuswm::protocol::{Anchor, Layer, Margins, ResizeEdge};
use focuswm::toast::{
    image_pixels, place_texture, tray_add, tray_remove, InternalIds, NotifyEvent, RowUpdate, Rows,
    Tile, Toasts, TrayItem,
};

fn add(id: u32, timeout_ms: i32) -> NotifyEvent {
    NotifyEvent::Add {
        id,
        app_name: "app".into(),
        summary: format!("s{id}"),
        body: "b".into(),
        timeout_ms,
    }
}

#[test]
fn toasts_are_bounded_and_replaced() {
    let mut t = Toasts::default();
    for id in 1..8 {
        t.notify(add(id, 0), 0);
    }
    let ids: Vec<u32> = t.items().iter().map(|t| t.id).collect();
    assert_eq!(ids, vec![3, 4, 5, 6, 7]);
    t.notify(add(4, 0), 0);
    let ids: Vec<u32> = t.items().iter().map(|t| t.id).collect();
    assert_eq!(ids, vec![3, 5, 6, 7, 4]);
    t.notify(NotifyEvent::Close { id: 6 }, 0);
    let ids: Vec<u32> = t.items().iter().map(|t| t.id).collect();
    assert_eq!(ids, vec![3, 5, 7, 4]);
}

#[test]
fn toasts_expire() {
    let mut t = Toasts::default();
    t.notify(add(1, 0), 1000);
    t.notify(add(2, -1), 1000);
    t.notify(add(3, 200), 1000);
    assert_eq!(t.items()[0].deadline, None);
    assert_eq!(t.items()[1].deadline, Some(6000));
    assert_eq!(t.items()[2].deadline, Some(1200));
    assert!(!t.expire(1199));
    assert!(t.expire(1200));
    assert!(t.expire(6000));
    assert_eq!(t.items().len(), 1);
    assert!(!t.expire(u64::MAX));
    let mut ids = InternalIds::default();
    assert!(matches!(
        ids.toast("a", "s", "b"),
        NotifyEvent::Add { id: 1_000_000, timeout_ms: 5000, .. }
    ));
    assert_eq!(ids.next, 1_000_001);
    ids.next = u32::MAX;
    ids.toast("a", "s", "b");
    assert_eq!(ids.next, 0);
}

#[test]
fn tray_items_are_kept_by_id() {
    let item = |id: &str, title: &str| TrayItem { id: id.into(), title: title.into(), icon: None };
    let mut items = Vec::new();
    tray_add(&mut items, item("a", "1"));
    tray_add(&mut items, item("b", "2"));
    tray_add(&mut items, item("a", "3"));
    assert_eq!(items, vec![item("a", "3"), item("b", "2")]);
    tray_remove(&mut items, "a");
    assert_eq!(items, vec![item("b", "2")]);
    assert_eq!(image_pixels(1, 1, &vec![1, 2]), vec![1, 2, 0, 0]);
    assert_eq!(image_pixels(1, 1, &vec![1, 2, 3, 4, 5]), vec![1, 2, 3, 4]);
}

#[test]
fn rows_move_up_when_one_is_removed() {
    let mut rows = Rows::default();
    assert_eq!(rows.upsert(5), RowUpdate::Added(0));
    assert_eq!(rows.upsert(6), RowUpdate::Added(1));
    assert_eq!(rows.upsert(7), RowUpdate::Added(2));
    assert_eq!(rows.upsert(6), RowUpdate::Existing(1));
    assert_eq!(rows.remove(5), Some(0));
    assert_eq!(rows.row(7), Some(1));
    assert_eq!(rows.remove(5), None);
    let windows = Rows::rebuild(vec![1, 2]);
    let layers = Rows::rebuild(vec![9]);
    assert_eq!(place_texture(&windows, &rows, &layers, 2), Some(Tile::Window(1)));
    assert_eq!(place_texture(&windows, &rows, &layers, 7), Some(Tile::Popup(1)));
    assert_eq!(place_texture(&windows, &rows, &layers, 9), Some(Tile::Layer(0)));
    assert_eq!(place_texture(&windows, &rows, &layers, 99), None);
}

#[test]
fn gpu_buffers_are_described_to_egl() {
    let planes = vec![
        DmabufPlane { fd: 4, offset: 8, stride: 64 },
        DmabufPlane { fd: 5, offset: 9, stride: 65 },
    ];
    let f = dmabuf_frame(16, 17, 0x3432_5258, 0x1_0000_0002, &planes).unwrap();
    assert_eq!(
        import_attribs(&f),
        vec![
            0x3057, 16, 0x3056, 17, 0x3271, 0x3432_5258, 0x3272, 4, 0x3273, 8, 0x3274, 64, 0x3443,
            2, 0x3444, 1, 0x3038,
        ]
    );
    let implicit = DmabufFrame { modifier: MOD_INVALID, ..f };
    assert_eq!(import_attribs(&implicit).len(), 13);
    let high = DmabufFrame { modifier: 0xffff_fffe_8000_0000, ..f };
    assert_eq!(import_attribs(&high)[13], i32::MIN);
    assert_eq!(import_attribs(&high)[15], -2);
    assert_eq!(dmabuf_frame(1, 1, 0, 0, &vec![]), None);
}

#[test]
fn textures_are_reused_and_released() {
    let mut b = GlBridge::default();
    assert!(!b.ready() && !b.can_import());
    b.init(true);
    b.init(false);
    assert!(b.ready() && b.can_import());
    assert_eq!(b.texture(1), None);
    b.upload(1, 7, &Frame { width: 2, height: 3, pixels: vec![0; 24] });
    assert_eq!(b.texture(1), Some(Texture { name: 7, width: 2, height: 3 }));
    assert_eq!(b.import_dmabuf(1, 100), None);
    assert_eq!(b.import_dmabuf(1, 101), Some(100));
    let f = DmabufFrame {
        width: 5,
        height: 6,
        fourcc: 0,
        modifier: 0,
        fd: 3,
        offset: 0,
        stride: 0,
    };
    b.bind_dmabuf(1, 7, &f);
    let gone = b.remove(1);
    assert_eq!(gone.texture, Some(Texture { name: 7, width: 5, height: 6 }));
    assert_eq!(gone.image, Some(101));
    assert_eq!(b.remove(1).texture, None);
}

fn commit(root: u64, attachment: Attachment) -> Commit {
    Commit {
        root,
        nodes: vec![SurfaceNode { surface: root, x: 0, y: 0, attachment }],
        alive: vec![root],
        dmabuf: None,
        title: "t".into(),
        app_id: "a".into(),
        hints: SizeHints { min_w: 1, min_h: 2, max_w: 3, max_h: 4 },
        geometry: None,
        override_redirect: false,
        anchor: Anchor { top: false, bottom: false, left: false, right: false },
        margin: Margins { top: 0, right: 0, bottom: 0, left: 0 },
    }
}

fn pixels(w: u32, h: u32) -> Attachment {
    Attachment::Buffer {
        frame: Some((w, h, vec![255; (w * h * 4) as usize])),
        src: None,
        dst: None,
    }
}

#[test]
fn windows_get_ids_and_events() {
    let mut s = FocusState::new(true);
    let added = s.new_toplevel(10);
    let id = match added {
        Event::WindowAdded(id) => id,
        _ => panic!("no window"),
    };
    assert_eq!(s.surface_for(id), Some(10));
    assert_eq!(s.id_of_surface(10), Some(id));
    assert_eq!(s.move_request(10), Some(Event::MoveRequested(id)));
    assert_eq!(
        s.resize_request(10, ResizeEdge::TopLeft),
        Some(Event::ResizeRequested { id, edges: 5 })
    );
    assert_eq!(s.resize_request(10, ResizeEdge::Unset), None);
    assert_eq!(
        s.maximize_request(10, true),
        Some(Event::MaximizeRequested { id, maximized: true })
    );
    assert_eq!(s.minimize_request(10), Some(Event::MinimizeRequested(id)));
    assert_eq!(s.request_activation(10), Some(Event::ActivationRequested(id)));
    assert_eq!(s.move_request(11), None);
    assert_eq!(
        s.set_decoration_mode(10, false),
        Some(Event::WindowDecorated { id, decorated: false })
    );
    assert_eq!(
        s.request_mode(10, false),
        Some(Event::WindowDecorated { id, decorated: true })
    );
    assert_eq!(s.toplevel_destroyed(10), Some(Event::WindowRemoved(id)));
    assert_eq!(s.toplevel_destroyed(10), None);
    let again = s.new_toplevel(10);
    assert_ne!(again, Event::WindowAdded(id));
}

#[test]
fn commits_become_events() {
    let mut s = FocusState::new(true);
    s.new_toplevel(1);
    let id = s.id_of_surface(1).unwrap();
    let mut c = commit(1, pixels(2, 2));
    c.geometry = Some(Rect { x: 1, y: 0, w: 1, h: 2 });
    let r = s.commit(c);
    assert_eq!(r.drain, Drain::Tree);
    match r.event {
        Some(Event::WindowBuffer { id: i, width, height, title, min_w, max_h, .. }) => {
            assert_eq!((i, width, height), (id, 1, 2));
            assert_eq!((title.as_str(), min_w, max_h), ("t", 1, 4));
        }
        other => panic!("{other:?}"),
    }
    // Pointer positions are mapped back to the surface.
    let a = s.handle_command(Command::PointerMotion { id, x: 256, y: 512 });
    assert_eq!(a, Action::Motion { surface: 1, x: 512, y: 512 });
    // A popup of it, and a layer.
    let (popup, parent) = s.new_popup(2, Some(1), 3, 4);
    assert_eq!(parent, Some(id));
    match s.commit(commit(2, pixels(1, 1))).event {
        Some(Event::PopupBuffer { id: i, parent: p, ox, oy, .. }) => {
            assert_eq!((i, p, ox, oy), (popup, Some(id), 3, 4))
        }
        other => panic!("{other:?}"),
    }
    s.new_layer_surface(3, Layer::Top, (0, 0));
    match s.commit(commit(3, pixels(1, 1))).event {
        Some(Event::LayerBuffer { layer, x, y, .. }) => assert_eq!((layer, x, y), (2, 0, 0)),
        other => panic!("{other:?}"),
    }
    // A GPU buffer is handed on as it is.
    let mut c = commit(1, Attachment::Unchanged);
    c.dmabuf = Some(Attached { width: 8, height: 9, fourcc: 1, modifier: 2, planes: vec![] });
    match s.commit(c).event {
        Some(Event::WindowDmabuf { width, height, .. }) => assert_eq!((width, height), (8, 9)),
        other => panic!("{other:?}"),
    }
    // A surface without a role only has its callbacks drained.
    let r = s.commit(commit(50, pixels(1, 1)));
    assert!(r.event.is_none());
    assert_eq!(r.drain, Drain::Surface);
}

#[test]
fn commands_become_actions() {
    let mut s = FocusState::new(false);
    s.new_toplevel(1);
    let id = s.id_of_surface(1).unwrap();
    assert_eq!(s.handle_command(Command::CloseWindow(id)), Action::CloseToplevel(1));
    assert_eq!(s.handle_command(Command::FocusWindow(id)), Action::Focus(1));
    assert_eq!(s.handle_command(Command::FocusWindow(WindowId(99))), Action::Ignore);
    assert_eq!(
        s.handle_command(Command::Key { keycode: 30, pressed: true }),
        Action::Key { keycode: 38, pressed: true }
    );
    assert_eq!(
        s.handle_command(Command::ResizeWindow { id, width: 0, height: 5 }),
        Action::ConfigureToplevel { surface: 1, width: 1, height: 5 }
    );
    assert_eq!(s.handle_command(Command::PointerLeave), Action::Leave);
    let x = s.register_x11(Some(7), 0x400).unwrap();
    let xid = match x {
        Event::WindowAdded(id) => id,
        other => panic!("{other:?}"),
    };
    assert_eq!(s.handle_command(Command::CloseWindow(xid)), Action::CloseX11(7));
    assert_eq!(s.register_x11(Some(7), 0x400), None);
    assert_eq!(s.unregister_x11(0x400), Some(Event::WindowRemoved(xid)));
    assert_eq!(s.unregister_x11(0x400), None);
}

#[test]
fn idle_inhibitors_are_counted() {
    let mut s = FocusState::new(false);
    assert_eq!(s.inhibit(1), Some(Event::IdleInhibited(true)));
    assert_eq!(s.inhibit(2), None);
    assert_eq!(s.uninhibit(1), None);
    assert_eq!(s.uninhibit(2), Some(Event::IdleInhibited(false)));
}

#[test]
fn drags_have_an_icon() {
    let mut s = FocusState::new(false);
    assert_eq!(s.drag_started(Some(4)), Event::DragStarted);
    match s.commit(commit(4, pixels(2, 1))).event {
        Some(Event::DragIcon { width, height, .. }) => assert_eq!((width, height), (2, 1)),
        other => panic!("{other:?}"),
    }
    assert_eq!(s.drag_dropped(), Event::DragEnded);
}

#[test]
fn events_describe_themselves_without_their_pixels() {
    let e = Event::WindowBuffer {
        id: WindowId(3),
        width: 1,
        height: 1,
        pixels: vec![1, 2, 3, 4],
        title: "a \"b\"".into(),
        app_id: "x".into(),
        decorated: true,
        min_w: 0,
        min_h: 0,
        max_w: 0,
        max_h: 0,
    };
    let text = e.describe();
    assert!(text.starts_with("WindowBuffer"));
    assert!(text.contains("a \\\"b\\\""));
    assert!(!text.contains("[1, 2, 3, 4]"));
}

#[test]
fn both_formats_are_offered_implicit_and_linear() {
    let offered = offered_formats();
    assert_eq!(offered.len(), 4);
    assert!(offered.contains(&(ARGB8888, MOD_INVALID)));
    assert!(offered.contains(&(XRGB8888, MOD_LINEAR)));
    // The codes are the letters of their names, lowest byte first.
    assert_eq!(ARGB8888.to_le_bytes(), *b"AR24");
    assert_eq!(XRGB8888.to_le_bytes(), *b"XR24");
}

#[test]
fn commits_are_told_apart_by_their_root() {
    let mut e = FocusState::new(true);
    assert!(e.has_ids());
    e.new_toplevel(7);
    e.new_layer_surface(8, Layer::Top, (0, 30));
    assert_eq!(e.kind_of_commit(1, true), CommitKind::Unknown);
    assert_eq!(e.kind_of_commit(7, true), CommitKind::Dmabuf(WindowId(0)));
    assert_eq!(
        e.kind_of_commit(7, false),
        CommitKind::Toplevel { id: WindowId(0), decorated: false }
    );
    assert_eq!(
        e.kind_of_commit(8, true),
        CommitKind::Layer { id: WindowId(1), layer: Layer::Top }
    );
    e.drag_started(Some(1));
    assert_eq!(e.kind_of_commit(1, false), CommitKind::DragIcon);
}
