use emulate_core::devices::framebuffer::{
    FB_BASE, FB_BYTES, FB_BYTES_PER_PIXEL, FB_HEIGHT, FB_MAX_WIDTH, FB_PAGES_PER_ROW,
    FB_RAM_OFFSET, FB_RESERVED_BYTES, FB_ROW_RGBA_BYTES, FB_STRIDE, FramebufferView,
    row_to_rgba,
};

#[test]
fn geometry_is_self_consistent_and_page_aligned() {
    assert_eq!(FB_STRIDE, FB_MAX_WIDTH * FB_BYTES_PER_PIXEL);
    assert_eq!(FB_STRIDE as usize, 4096 * FB_PAGES_PER_ROW);
    assert_eq!(FB_BASE, 0x8700_0000);
    assert_eq!(FB_BYTES, 16 * 1024 * 1024);
    assert!(FB_BYTES <= FB_RESERVED_BYTES);
    assert_eq!(FB_RAM_OFFSET % FB_STRIDE as u64, 0);
}

#[test]
fn a_fresh_view_reports_every_row_once() {
    let mut view = FramebufferView::new();
    let generations = vec![0u64; FB_HEIGHT as usize];
    let mut rows = Vec::new();

    view.scan(&generations, &mut rows);
    assert_eq!(rows.len(), FB_HEIGHT as usize);
    assert_eq!(rows[0], 0);
    assert_eq!(rows[FB_HEIGHT as usize - 1], FB_HEIGHT - 1);

    rows.clear();
    view.scan(&generations, &mut rows);
    assert!(rows.is_empty());
}

#[test]
fn only_changed_rows_are_reported() {
    let mut view = FramebufferView::new();
    let mut generations = vec![0u64; FB_HEIGHT as usize];
    let mut rows = Vec::new();
    view.scan(&generations, &mut rows);
    rows.clear();

    generations[7] = 1;
    generations[200] = 9;
    view.scan(&generations, &mut rows);

    assert_eq!(rows, vec![7, 200]);
}

#[test]
fn mark_all_dirty_forces_a_full_repaint() {
    let mut view = FramebufferView::new();
    let generations = vec![3u64; FB_HEIGHT as usize];
    let mut rows = Vec::new();
    view.scan(&generations, &mut rows);
    rows.clear();

    view.mark_all_dirty();
    view.scan(&generations, &mut rows);

    assert_eq!(rows.len(), FB_HEIGHT as usize);
}

#[test]
fn xrgb_becomes_opaque_rgba() {
    let mut src = vec![0u8; FB_STRIDE as usize];
    // Blue pixel: B=0xff, G=0, R=0, X=0.
    src[0] = 0xff;
    // Red pixel at x=1: B=0, G=0, R=0xff.
    src[6] = 0xff;
    let mut dst = vec![0u8; FB_ROW_RGBA_BYTES];

    row_to_rgba(&src, &mut dst);

    assert_eq!(&dst[..4], &[0x00, 0x00, 0xff, 0xff]);
    assert_eq!(&dst[4..8], &[0xff, 0x00, 0x00, 0xff]);
}
