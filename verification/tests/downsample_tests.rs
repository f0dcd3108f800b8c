use fractals::downsample;

#[test]
fn uniform_block_keeps_its_value() {
    for v in [0u8, 1, 7, 127, 254, 255] {
        let buf = vec![v; 3 * 2 * 2];
        let out = downsample(2, 2, buf);
        assert_eq!(out, vec![v; 3]);
    }
}

#[test]
fn mixed_block_truncates_average() {
    // One 2x2 pixel block; each channel averages its four source bytes,
    // truncating: (0 + 1 + 2 + 3) / 4 = 1.
    let mut buf = vec![0u8; 12];
    for (pixel, value) in [0usize, 1, 2, 3].iter().enumerate() {
        for ch in 0..3 {
            buf[pixel * 3 + ch] = *value as u8;
        }
    }
    let out = downsample(2, 2, buf);
    assert_eq!(out, vec![1, 1, 1]);
}

#[test]
fn channels_average_independently() {
    // Red channel bytes 10, 20, 30, 40 -> 25; green all 9 -> 9; blue
    // bytes 0, 0, 1, 1 -> 0 (truncated).
    let mut buf = vec![0u8; 12];
    let reds = [10u8, 20, 30, 40];
    let blues = [0u8, 0, 1, 1];
    for pixel in 0..4 {
        buf[pixel * 3] = reds[pixel];
        buf[pixel * 3 + 1] = 9;
        buf[pixel * 3 + 2] = blues[pixel];
    }
    let out = downsample(2, 2, buf);
    assert_eq!(out, vec![25, 9, 0]);
}

#[test]
fn four_by_two_makes_two_pixels() {
    // Two 2x2 blocks side by side in a 4x2 image. Left block red bytes
    // are 4, 8, 12, 16 -> 10; right block red bytes are 100, 100, 200,
    // 200 -> 150. Other channels zero.
    let w = 4usize;
    let mut buf = vec![0u8; 3 * 4 * 2];
    let red = |x: usize, y: usize| (y * w + x) * 3;
    buf[red(0, 0)] = 4;
    buf[red(1, 0)] = 8;
    buf[red(0, 1)] = 12;
    buf[red(1, 1)] = 16;
    buf[red(2, 0)] = 100;
    buf[red(3, 0)] = 100;
    buf[red(2, 1)] = 200;
    buf[red(3, 1)] = 200;
    let out = downsample(4, 2, buf);
    assert_eq!(out, vec![10, 0, 0, 150, 0, 0]);
}
