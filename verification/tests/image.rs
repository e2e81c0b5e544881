use pathtracer::image::{ppm_encode, push_dec, push_pixel, Rgb};

#[test]
fn decimal_zero() {
    let mut out: Vec<u8> = Vec::new();
    push_dec(&mut out, 0);
    assert_eq!(out, b"0".to_vec());
}

#[test]
fn decimal_single_digit() {
    let mut out: Vec<u8> = Vec::new();
    push_dec(&mut out, 7);
    assert_eq!(out, b"7".to_vec());
}

#[test]
fn decimal_max_channel() {
    let mut out: Vec<u8> = Vec::new();
    push_dec(&mut out, 255);
    assert_eq!(out, b"255".to_vec());
}

#[test]
fn decimal_wide_image() {
    let mut out: Vec<u8> = Vec::new();
    push_dec(&mut out, 2048);
    assert_eq!(out, b"2048".to_vec());
}

#[test]
fn decimal_appends() {
    let mut out: Vec<u8> = b"x".to_vec();
    push_dec(&mut out, 10);
    assert_eq!(out, b"x10".to_vec());
}

#[test]
fn pixel_line() {
    let mut out: Vec<u8> = Vec::new();
    push_pixel(&mut out, Rgb { r: 0, g: 128, b: 255 });
    assert_eq!(out, b"0 128 255\n".to_vec());
}

#[test]
fn ppm_single_pixel() {
    let pixels = vec![Rgb { r: 12, g: 34, b: 56 }];
    let out = ppm_encode(1, 1, &pixels);
    assert_eq!(out, b"P3\n1 1\n255\n12 34 56\n".to_vec());
}

#[test]
fn ppm_two_by_two() {
    let pixels = vec![
        Rgb { r: 255, g: 255, b: 255 },
        Rgb { r: 0, g: 0, b: 0 },
        Rgb { r: 1, g: 2, b: 3 },
        Rgb { r: 10, g: 20, b: 30 },
    ];
    let out = ppm_encode(2, 2, &pixels);
    assert_eq!(
        out,
        b"P3\n2 2\n255\n255 255 255\n0 0 0\n1 2 3\n10 20 30\n".to_vec()
    );
}

#[test]
fn ppm_empty_image() {
    let pixels: Vec<Rgb> = Vec::new();
    let out = ppm_encode(0, 0, &pixels);
    assert_eq!(out, b"P3\n0 0\n255\n".to_vec());
}

#[test]
fn ppm_identical_pixels_render_identically() {
    // Four pixels of one quantized value come out as four equal lines.
    let p = Rgb { r: 188, g: 212, b: 255 };
    let pixels = vec![p, p, p, p];
    let out = ppm_encode(2, 2, &pixels);
    let text = String::from_utf8(out).unwrap();
    let lines: Vec<&str> = text.lines().collect();
    assert_eq!(lines.len(), 7);
    assert_eq!(lines[0], "P3");
    assert_eq!(lines[1], "2 2");
    assert_eq!(lines[2], "255");
    for line in &lines[3..] {
        assert_eq!(*line, "188 212 255");
    }
}
