use stemmefil::gui::image::decode_thumbnail;

const PPM: &[u8] = b"P3\n2 2\n255\n255 0 0  0 255 0\n0 0 255  255 255 255\n";

#[test]
fn picture_is_decoded_at_its_size_when_it_fills_the_box() {
    let t = decode_thumbnail(PPM, "voices/cover.ppm", 4, 2).unwrap();
    assert_eq!((t.width, t.height), (2, 2));
    assert_eq!(t.size(), [2, 2]);
    assert_eq!(
        t.rgba,
        vec![255, 0, 0, 255, 0, 255, 0, 255, 0, 0, 255, 255, 255, 255, 255, 255]
    );
}

#[test]
fn picture_is_scaled_up_to_the_box() {
    let t = decode_thumbnail(PPM, "cover.ppm", 10, 10).unwrap();
    assert_eq!((t.width, t.height), (10, 10));
    assert_eq!(t.rgba.len(), 400);
}

#[test]
fn picture_is_scaled_down_to_the_box() {
    let t = decode_thumbnail(PPM, "COVER.PPM", 1, 1).unwrap();
    assert_eq!((t.width, t.height), (1, 1));
    assert_eq!(t.rgba.len(), 4);
}

#[test]
fn unknown_format_or_bad_bytes_give_nothing() {
    assert!(decode_thumbnail(PPM, "cover.xyz", 10, 10).is_none());
    assert!(decode_thumbnail(PPM, "cover", 10, 10).is_none());
    assert!(decode_thumbnail(b"not a picture", "cover.ppm", 10, 10).is_none());
}
