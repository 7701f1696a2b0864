use focuswm::render::{blit_over, convert_rect_into, convert_to_rgba, ShmFormat};


#[test]
fn swaps_bgra_to_rgba() {
    let src = [10u8, 20, 30, 40];
    let out = convert_to_rgba(&src, 1, 1, 4, ShmFormat::Argb8888);
    assert_eq!(out, vec![30, 20, 10, 40]);
}

#[test]
fn xrgb_forces_opaque_alpha() {
    let src = [10u8, 20, 30, 0];
    let out = convert_to_rgba(&src, 1, 1, 4, ShmFormat::Xrgb8888);
    assert_eq!(out, vec![30, 20, 10, 255]);
}

#[test]
fn skips_stride_padding() {
    let src = [1, 2, 3, 4, 0, 0, 0, 0, 5, 6, 7, 8, 0, 0, 0, 0];
    let out = convert_to_rgba(&src, 1, 2, 8, ShmFormat::Argb8888);
    assert_eq!(out, vec![3, 2, 1, 4, 7, 6, 5, 8]);
}

#[test]
fn blit_opaque_overwrites() {
    let mut dst = vec![0u8; 2 * 2 * 4];
    let src = [9, 9, 9, 255];
    blit_over(&mut dst, 2, 2, 1, 1, &src, 1, 1);
    // Only the bottom-right pixel is written.
    assert_eq!(&dst[12..16], &[9, 9, 9, 255]);
    assert_eq!(&dst[0..4], &[0, 0, 0, 0]);
}

#[test]
fn blit_clips_negative_offset() {
    // 2x2 source placed at (-1,-1): only its bottom-right pixel lands at (0,0).
    let mut dst = vec![0u8; 2 * 2 * 4];
    let src = vec![255u8; 2 * 2 * 4];
    blit_over(&mut dst, 2, 2, -1, -1, &src, 2, 2);
    assert_eq!(&dst[0..4], &[255, 255, 255, 255]);
    assert_eq!(&dst[4..8], &[0, 0, 0, 0]);
}

#[test]
fn blit_alpha_blends_halfway() {
    let mut dst = vec![0u8, 0, 0, 255]; // opaque black, 1px
    let src = [255u8, 255, 255, 128]; // ~50% white
    blit_over(&mut dst, 1, 1, 0, 0, &src, 1, 1);
    // ~50% blend toward white.
    assert!(dst[0] > 120 && dst[0] < 135);
    assert_eq!(dst[3], 255);
}

#[test]
fn blit_onto_transparent_keeps_source_color() {
    // Blending onto a fully transparent canvas must keep the straight-alpha
    // source untouched, not premultiply its color by its own alpha.
    let mut dst = vec![0u8; 4]; // transparent, 1px
    let src = [255u8, 200, 100, 128];
    blit_over(&mut dst, 1, 1, 0, 0, &src, 1, 1);
    assert_eq!(&dst[0..3], &[255, 200, 100]);
    assert_eq!(dst[3], 128);
}

#[test]
fn blit_onto_translucent_weighs_destination_alpha() {
    // 50% white over 50% black: a_out = 0.75, color = (0.5*255)/0.75 = 170.
    let mut dst = vec![0u8, 0, 0, 128];
    let src = [255u8, 255, 255, 128];
    blit_over(&mut dst, 1, 1, 0, 0, &src, 1, 1);
    assert!(dst[0] >= 168 && dst[0] <= 172, "got {}", dst[0]);
    assert!(dst[3] >= 190 && dst[3] <= 193, "got {}", dst[3]);
}

#[test]
fn convert_truncated_buffer_leaves_zeroes() {
    // Claim 2x2 but provide only one row of data.
    let src = [1, 2, 3, 4, 5, 6, 7, 8];
    let out = convert_to_rgba(&src, 2, 2, 8, ShmFormat::Argb8888);
    assert_eq!(&out[0..8], &[3, 2, 1, 4, 7, 6, 5, 8]);
    assert_eq!(&out[8..16], &[0, 0, 0, 0, 0, 0, 0, 0]);
}

#[test]
fn blit_fully_offscreen_is_a_noop() {
    let mut dst = vec![0u8; 4 * 4]; // 2x2 opaque-nothing
    let src = [9u8, 9, 9, 255];
    // Far to the right / below and far to the top-left: nothing lands.
    blit_over(&mut dst, 2, 2, 5, 5, &src, 1, 1);
    blit_over(&mut dst, 2, 2, -5, -5, &src, 1, 1);
    assert!(dst.iter().all(|&b| b == 0), "no pixels should be written");
}

#[test]
fn blit_partially_clipped_writes_only_the_visible_corner() {
    // 2x2 source dropped at (1,1) into a 2x2 dest: only its top-left pixel
    // lands, at dest (1,1).
    let mut dst = vec![0u8; 2 * 2 * 4];
    let src = [
        1, 2, 3, 255, 4, 5, 6, 255, // row 0
        7, 8, 9, 255, 10, 11, 12, 255, // row 1
    ];
    blit_over(&mut dst, 2, 2, 1, 1, &src, 2, 2);
    // dest pixel (1,1) is index (1*2 + 1)*4 = 12.
    assert_eq!(&dst[12..16], &[1, 2, 3, 255]);
    // The other three dest pixels are untouched.
    assert_eq!(&dst[0..4], &[0, 0, 0, 0]);
    assert_eq!(&dst[4..8], &[0, 0, 0, 0]);
    assert_eq!(&dst[8..12], &[0, 0, 0, 0]);
}

#[test]
fn blit_skips_fully_transparent_source_pixels() {
    let mut dst = vec![50u8; 4]; // one opaque-ish grey pixel
    let src = [200u8, 200, 200, 0]; // fully transparent
    blit_over(&mut dst, 1, 1, 0, 0, &src, 1, 1);
    assert_eq!(dst, vec![50, 50, 50, 50], "transparent source leaves dest as-is");
}

#[test]
fn xrgb_conversion_across_multiple_pixels() {
    // Two BGRX pixels; alpha is forced opaque regardless of the X byte.
    let src = [10u8, 20, 30, 0, 40, 50, 60, 7];
    let out = convert_to_rgba(&src, 2, 1, 8, ShmFormat::Xrgb8888);
    assert_eq!(out, vec![30, 20, 10, 255, 60, 50, 40, 255]);
}

#[test]
fn rect_conversion_touches_only_the_rect() {
    // 2x2 BGRA source; convert only the right column into a canary-filled
    // destination: the left column must keep its canary bytes.
    let src = [
        1u8, 1, 1, 255, 2, 2, 2, 255, // row 0: pixels A, B
        3, 3, 3, 255, 4, 4, 4, 255, // row 1: pixels C, D
    ];
    let mut dst = vec![9u8; 2 * 2 * 4];
    convert_rect_into(&mut dst, &src, 2, 2, 8, ShmFormat::Argb8888, (1, 0, 1, 2));
    assert_eq!(&dst[0..4], &[9, 9, 9, 9], "left of row 0 untouched");
    assert_eq!(&dst[4..8], &[2, 2, 2, 255], "B converted");
    assert_eq!(&dst[8..12], &[9, 9, 9, 9], "left of row 1 untouched");
    assert_eq!(&dst[12..16], &[4, 4, 4, 255], "D converted");
    // Out-of-bounds rectangles clamp instead of panicking.
    convert_rect_into(&mut dst, &src, 2, 2, 8, ShmFormat::Argb8888, (5, 5, 9, 9));
}

#[test]
fn damage_conversion_matches_a_full_one() {
    let first: Vec<u8> = (0..16).collect();
    let mut second = first.clone();
    second[4..8].copy_from_slice(&[90, 91, 92, 93]);
    let mut dst = convert_to_rgba(&first, 2, 2, 8, ShmFormat::Argb8888);
    convert_rect_into(&mut dst, &second, 2, 2, 8, ShmFormat::Argb8888, (1, 0, 1, 1));
    assert_eq!(dst, convert_to_rgba(&second, 2, 2, 8, ShmFormat::Argb8888));
}

#[test]
fn full_rect_is_the_whole_image() {
    let src: Vec<u8> = (0..24).collect();
    let mut dst = vec![0u8; 24];
    convert_rect_into(&mut dst, &src, 3, 2, 12, ShmFormat::Xrgb8888, (0, 0, 3, 2));
    assert_eq!(dst, convert_to_rgba(&src, 3, 2, 12, ShmFormat::Xrgb8888));
}

#[test]
fn short_destination_is_left_alone() {
    let mut dst = vec![7u8; 12];
    convert_rect_into(&mut dst, &[1; 16], 2, 2, 8, ShmFormat::Argb8888, (0, 0, 2, 2));
    assert_eq!(dst, vec![7u8; 12]);
}

#[test]
fn blending_has_exact_values() {
    let mut dst = vec![0u8, 0, 0, 255];
    blit_over(&mut dst, 1, 1, 0, 0, &[255, 255, 255, 128], 1, 1);
    assert_eq!(dst, vec![128, 128, 128, 255]);
    let mut dst = vec![0u8, 0, 0, 128];
    blit_over(&mut dst, 1, 1, 0, 0, &[255, 255, 255, 128], 1, 1);
    assert_eq!(dst, vec![170, 170, 170, 192]);
}

#[test]
fn short_source_row_blends_nothing_past_its_end() {
    let mut dst = vec![0u8; 8];
    blit_over(&mut dst, 2, 1, 0, 0, &[5, 6, 7, 255], 2, 1);
    assert_eq!(dst, vec![5, 6, 7, 255, 0, 0, 0, 0]);
}
