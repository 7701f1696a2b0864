use focuswm::frame::{
    apply_viewport, composite_tree, crop_to_geometry, node_fits, read_shm, surface_location, Attachment,
    FixedRect, Rect, SurfaceNode,
};
use focuswm::protocol::{
    cursor_shape_code, layer_position, layer_size, layer_to_u8, resize_edges_mask, size_floor,
    x11_configure, Anchor, CursorIcon, CursorImageStatus, Layer, Margins, ResizeEdge,
};
use focuswm::render::ShmFormat;
use std::collections::HashMap;

// A 2x2 RGBA image whose pixel (x,y) is the byte (y*2+x) repeated 4 times.
fn img() -> (u32, u32, Vec<u8>) {
    let px = |v: u8| [v, v, v, v];
    let mut buf = Vec::new();
    for v in 0..4u8 {
        buf.extend_from_slice(&px(v));
    }
    (2, 2, buf)
}

#[test]
fn crop_none_is_noop() {
    let (b, off) = crop_to_geometry(img(), None);
    assert_eq!(b.0, 2);
    assert_eq!(off, (0, 0));
}

#[test]
fn crop_full_size_is_noop() {
    let geo = Rect { x: 0, y: 0, w: 2, h: 2 };
    let (b, off) = crop_to_geometry(img(), Some(geo));
    assert_eq!((b.0, b.1), (2, 2));
    assert_eq!(off, (0, 0));
}

#[test]
fn crop_subrect_extracts_column_and_offset() {
    // Right column (x=1), both rows -> pixels for v=1 and v=3.
    let geo = Rect { x: 1, y: 0, w: 1, h: 2 };
    let (b, off) = crop_to_geometry(img(), Some(geo));
    assert_eq!((b.0, b.1), (1, 2));
    assert_eq!(off, (1, 0));
    assert_eq!(b.2, vec![1, 1, 1, 1, 3, 3, 3, 3]);
}

#[test]
fn crop_degenerate_is_noop() {
    let geo = Rect { x: 5, y: 5, w: 0, h: 0 };
    let (b, off) = crop_to_geometry(img(), Some(geo));
    assert_eq!((b.0, b.1), (2, 2));
    assert_eq!(off, (0, 0));
}

#[test]
fn viewport_passthrough_without_state() {
    let frame = (2u32, 2u32, vec![0u8; 16]);
    let out = apply_viewport(frame.clone(), None, None);
    assert_eq!(out, frame);
}

#[test]
fn viewport_scales_to_dst() {
    // 2x1 buffer: left pixel = 1s, right pixel = 2s; stretch to 4x1.
    let frame = (2u32, 1u32, vec![1, 1, 1, 1, 2, 2, 2, 2]);
    let (w, h, px) = apply_viewport(frame, None, Some((4, 1)));
    assert_eq!((w, h), (4, 1));
    // Nearest-neighbour: two left samples from pixel 0, two right from pixel 1.
    assert_eq!(px, vec![1, 1, 1, 1, 1, 1, 1, 1, 2, 2, 2, 2, 2, 2, 2, 2]);
}

#[test]
fn viewport_crops_src() {
    // 2x2 buffer with pixel value = index; crop the right column.
    let (_, _, base) = img();
    let src = FixedRect { x: 256, y: 0, w: 256, h: 512 };
    let (w, h, px) = apply_viewport((2, 2, base), Some(src), None);
    assert_eq!((w, h), (1, 2));
    assert_eq!(px, vec![1, 1, 1, 1, 3, 3, 3, 3]);
}

#[test]
fn resize_edges_mask_maps_all_edges() {
    assert_eq!(resize_edges_mask(ResizeEdge::Left), 1);
    assert_eq!(resize_edges_mask(ResizeEdge::Right), 2);
    assert_eq!(resize_edges_mask(ResizeEdge::Top), 4);
    assert_eq!(resize_edges_mask(ResizeEdge::Bottom), 8);
    assert_eq!(resize_edges_mask(ResizeEdge::BottomRight), 10);
    assert_eq!(resize_edges_mask(ResizeEdge::TopLeft), 5);
    assert_eq!(resize_edges_mask(ResizeEdge::Unset), 0);
}

#[test]
fn cursor_shape_codes_map_named_and_hidden() {
    let named = |i| cursor_shape_code(&CursorImageStatus::Named(i));
    assert_eq!(cursor_shape_code(&CursorImageStatus::Hidden), 1);
    assert_eq!(named(CursorIcon::Pointer), 2);
    assert_eq!(named(CursorIcon::Text), 3);
    assert_eq!(named(CursorIcon::Grab), 10);
    // The four resize axes collapse onto the bidirectional Slint cursors.
    assert_eq!(named(CursorIcon::EwResize), 14);
    assert_eq!(named(CursorIcon::EResize), 14);
    assert_eq!(named(CursorIcon::WResize), 14);
    assert_eq!(named(CursorIcon::NsResize), 15);
    // Default and unmapped shapes fall back to the default arrow (0).
    assert_eq!(named(CursorIcon::Default), 0);
    assert_eq!(named(CursorIcon::ZoomIn), 0);
}

#[test]
fn cropping_clamps_to_the_buffer() {
    let geo = Rect { x: -1, y: 1, w: 2, h: 9 };
    let (b, off) = crop_to_geometry(img(), Some(geo));
    assert_eq!(b, (1, 1, vec![2, 2, 2, 2]));
    assert_eq!(off, (0, 1));
}

#[test]
fn shm_buffers_are_checked() {
    let pool = [0u8, 0, 0, 0, 10, 20, 30, 40];
    let ok = read_shm(&pool, 4, 1, 1, 4, Some(ShmFormat::Argb8888));
    assert_eq!(ok, Some((1, 1, vec![30, 20, 10, 40])));
    assert_eq!(read_shm(&pool, 4, 1, 1, 4, None), None);
    assert_eq!(read_shm(&pool, 9, 1, 1, 4, Some(ShmFormat::Argb8888)), None);
    assert_eq!(read_shm(&pool, 0, 0, 1, 4, Some(ShmFormat::Argb8888)), None);
    assert_eq!(read_shm(&pool, 0, 1, -1, 4, Some(ShmFormat::Argb8888)), None);
    // A negative offset counts as none.
    let neg = read_shm(&pool, -3, 1, 1, 4, Some(ShmFormat::Xrgb8888));
    assert_eq!(neg, Some((1, 1, vec![0, 0, 0, 255])));
}

fn buffer(w: u32, h: u32, v: u8) -> Attachment {
    let n = (w * h) as usize;
    let mut pixels = Vec::new();
    for _ in 0..n {
        pixels.extend_from_slice(&[v, v, v, 255]);
    }
    Attachment::Buffer { frame: Some((w, h, pixels)), src: None, dst: None }
}

#[test]
fn a_tree_is_flattened_and_remembered() {
    let mut cache = HashMap::new();
    let nodes = vec![
        SurfaceNode { surface: 1, x: 0, y: 0, attachment: buffer(2, 1, 1) },
        SurfaceNode { surface: 2, x: 1, y: 0, attachment: buffer(1, 1, 9) },
    ];
    let out = composite_tree(1, nodes, &vec![1, 2], &mut cache);
    assert_eq!(out, Some((2, 1, vec![1, 1, 1, 255, 9, 9, 9, 255])));
    // Nothing new: the last-known pixels stay visible.
    let nodes = vec![
        SurfaceNode { surface: 1, x: 0, y: 0, attachment: Attachment::Unchanged },
        SurfaceNode { surface: 2, x: 0, y: 0, attachment: Attachment::Unchanged },
    ];
    let out = composite_tree(1, nodes, &vec![1, 2], &mut cache);
    assert_eq!(out, Some((2, 1, vec![9, 9, 9, 255, 1, 1, 1, 255])));
    // The child dies, then the root loses its buffer.
    let nodes = vec![SurfaceNode { surface: 1, x: 0, y: 0, attachment: Attachment::Unchanged }];
    let out = composite_tree(1, nodes, &vec![1], &mut cache);
    assert_eq!(out, Some((2, 1, vec![1, 1, 1, 255, 1, 1, 1, 255])));
    assert!(!cache.contains_key(&2));
    let nodes = vec![SurfaceNode { surface: 1, x: 0, y: 0, attachment: Attachment::Removed }];
    assert_eq!(composite_tree(1, nodes, &vec![1], &mut cache), None);
}

#[test]
fn child_positions_add_up() {
    assert_eq!(surface_location((3, -4), (10, 20)), (13, 16));
}

#[test]
fn layers_stand_at_their_edges() {
    let margin = Margins { top: 1, right: 2, bottom: 3, left: 4 };
    let free = Anchor { top: false, bottom: false, left: false, right: false };
    let corner = Anchor { right: true, bottom: true, ..free };
    assert_eq!(layer_position((100, 50), free, margin, 10, 5), (4, 1));
    assert_eq!(layer_position((100, 50), corner, margin, 10, 5), (88, 42));
    let all = Anchor { top: true, bottom: true, left: true, right: true };
    assert_eq!(layer_position((100, 50), all, margin, 10, 5), (4, 1));
    assert_eq!(layer_size((0, 20), (100, 50)), (100, 20));
    assert_eq!(size_floor(-5, 7), (1, 7));
    assert_eq!(layer_to_u8(Layer::Background), 0);
    assert_eq!(layer_to_u8(Layer::Bottom), 1);
    assert_eq!(layer_to_u8(Layer::Top), 2);
    assert_eq!(layer_to_u8(Layer::Overlay), 3);
}

#[test]
fn x11_windows_keep_what_they_do_not_ask_for() {
    let geo = Rect { x: 1, y: 2, w: 3, h: 4 };
    assert_eq!(
        x11_configure(geo, Some(9), None, None, Some(8)),
        Rect { x: 9, y: 2, w: 3, h: 8 }
    );
    assert_eq!(
        x11_configure(geo, None, Some(-1), Some(u32::MAX), None),
        Rect { x: 1, y: -1, w: -1, h: 4 }
    );
}

#[test]
fn nodes_fit_when_their_pixels_match_their_size() {
    let node = |frame, src, dst| SurfaceNode {
        surface: 1,
        x: 0,
        y: 0,
        attachment: Attachment::Buffer { frame, src, dst },
    };
    assert!(node_fits(&node(Some((2, 2, vec![0; 16])), None, None)));
    assert!(!node_fits(&node(Some((2, 2, vec![0; 15])), None, None)));
    assert!(!node_fits(&node(Some((2, 2, vec![0; 20])), None, None)));
    assert!(node_fits(&node(Some((2, 2, vec![0; 16])), None, Some((4, 4)))));
    assert!(!node_fits(&node(
        Some((2, 2, vec![0; 16])),
        None,
        Some((i32::MAX, i32::MAX))
    )));
    assert!(node_fits(&node(None, None, None)));
    assert!(node_fits(&SurfaceNode { surface: 1, x: 0, y: 0, attachment: Attachment::Removed }));
}
