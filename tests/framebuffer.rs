use monitor_blank::framebuffer::{buffer_layout, fill_black, BufferLayout, POOL_BYTES};

#[test]
fn layout_of_small_frame() {
    assert_eq!(
        buffer_layout(3, 2),
        Some(BufferLayout { width: 3, height: 2, stride: 12, len: 24 })
    );
}

#[test]
fn layout_refuses_empty_and_oversized() {
    assert_eq!(buffer_layout(0, 10), None);
    assert_eq!(buffer_layout(10, 0), None);
    assert_eq!(buffer_layout(0x2000_0000, 1), None);
    assert_eq!(buffer_layout(1, 0x8000_0000), None);
    assert!(buffer_layout(0x1fff_ffff, 1).is_some());
}

#[test]
fn black_fill_is_little_endian_argb() {
    let mut canvas = vec![7u8; 8];
    fill_black(&mut canvas);
    assert_eq!(canvas, vec![0, 0, 0, 0xFF, 0, 0, 0, 0xFF]);
}

#[test]
fn pool_holds_two_full_hd_frames() {
    assert_eq!(POOL_BYTES, 16_588_800);
}
