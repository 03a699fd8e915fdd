use toyrt::{encode_ppm, pack_rgb, Mirror, Rgb};

#[test]
fn pack_places_channels() {
    assert_eq!(pack_rgb((0x12, 0x34, 0x56)), 0x0012_3456);
    assert_eq!(pack_rgb((255, 255, 255)), 0x00ff_ffff);
    assert_eq!(pack_rgb((0, 0, 0)), 0);
    assert_eq!(pack_rgb((1, 0, 0)), 1 << 16);
}

#[test]
fn ppm_two_by_two() {
    let px: Vec<Rgb> = vec![(255, 0, 7), (10, 200, 99), (0, 0, 0), (1, 22, 133)];
    let out = encode_ppm(2, 2, &px);
    let text = String::from_utf8(out).unwrap();
    assert_eq!(text, "P3 2 2\n255\n255 0 7 10 200 99 \n0 0 0 1 22 133 \n");
}

#[test]
fn ppm_three_by_one() {
    let px: Vec<Rgb> = vec![(9, 10, 100), (255, 255, 255), (0, 1, 2)];
    let out = encode_ppm(3, 1, &px);
    assert_eq!(
        String::from_utf8(out).unwrap(),
        "P3 3 1\n255\n9 10 100 255 255 255 0 1 2 \n"
    );
}

#[test]
fn ppm_empty_image_is_header_only() {
    let out = encode_ppm(0, 0, &Vec::new());
    assert_eq!(String::from_utf8(out).unwrap(), "P3 0 0\n255\n");
    let out = encode_ppm(800, 0, &Vec::new());
    assert_eq!(String::from_utf8(out).unwrap(), "P3 800 0\n255\n");
}

#[test]
fn ppm_matches_formatted_text() {
    let (w, h) = (7usize, 5usize);
    let px: Vec<Rgb> = (0..w * h)
        .map(|i| ((i * 37 % 256) as u8, (i * 101 % 256) as u8, (i * 7 % 256) as u8))
        .collect();
    let mut expected = format!("P3 {} {}\n255\n", w, h);
    for y in 0..h {
        for x in 0..w {
            let (r, g, b) = px[y * w + x];
            expected.push_str(&format!("{} {} {} ", r, g, b));
        }
        expected.push('\n');
    }
    assert_eq!(String::from_utf8(encode_ppm(w, h, &px)).unwrap(), expected);
}

#[test]
fn mirror_is_a_plain_value() {
    let m = Mirror;
    assert_eq!(m, Mirror::default());
}
