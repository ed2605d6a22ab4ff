use os_kernel::gpu::draw_test_pattern;

#[test]
fn pattern_colours_each_pixel() {
    let mut fb = vec![0xAAu8; 1024 * 768 * 4];
    draw_test_pattern(&mut fb);
    let px = |x: usize, y: usize| {
        let i = (y * 1024 + x) * 4;
        (fb[i], fb[i + 1], fb[i + 2], fb[i + 3])
    };
    assert_eq!(px(0, 0), (0, 0, 0, 0xAA));
    assert_eq!(px(1, 2), (1, 2, 3, 0xAA));
    assert_eq!(px(300, 10), (44, 10, 54, 0xAA));
    assert_eq!(px(1023, 767), (255, 255, 254, 0xAA));
    assert_eq!(px(200, 100), (200, 100, 44, 0xAA));
}

#[test]
fn pattern_leaves_bytes_past_the_screen() {
    let mut fb = vec![9u8; 1024 * 768 * 4 + 16];
    draw_test_pattern(&mut fb);
    assert!(fb[1024 * 768 * 4..].iter().all(|b| *b == 9));
}

#[test]
fn pattern_fits_a_buffer_ending_at_the_last_red_byte() {
    let mut fb = vec![1u8; (1024 * 768 - 1) * 4 + 3];
    draw_test_pattern(&mut fb);
    let i = (1024 * 768 - 1) * 4;
    assert_eq!(&fb[i..], &[255, 255, 254]);
}
