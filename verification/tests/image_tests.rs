use lazy_assets::image::{decode_image, extension_of, LeafImage, PixelFormat};

const RGBA_2X1: [u8; 74] = [
    137, 80, 78, 71, 13, 10, 26, 10, 0, 0, 0, 13, 73, 72, 68, 82, 0, 0, 0, 2, 0, 0, 0, 1, 8, 6, 0,
    0, 0, 244, 34, 127, 138, 0, 0, 0, 17, 73, 68, 65, 84, 120, 156, 99, 248, 207, 192, 240, 159,
    161, 225, 191, 3, 0, 16, 186, 3, 190, 71, 150, 32, 160, 0, 0, 0, 0, 73, 69, 78, 68, 174, 66,
    96, 130,
];

const GRAY_1X1: [u8; 67] = [
    137, 80, 78, 71, 13, 10, 26, 10, 0, 0, 0, 13, 73, 72, 68, 82, 0, 0, 0, 1, 0, 0, 0, 1, 8, 0, 0,
    0, 0, 58, 126, 155, 85, 0, 0, 0, 10, 73, 68, 65, 84, 120, 156, 99, 96, 7, 0, 0, 9, 0, 8, 32,
    35, 195, 140, 0, 0, 0, 0, 73, 69, 78, 68, 174, 66, 96, 130,
];

const GRAY16_1X1: [u8; 68] = [
    137, 80, 78, 71, 13, 10, 26, 10, 0, 0, 0, 13, 73, 72, 68, 82, 0, 0, 0, 1, 0, 0, 0, 1, 16, 0,
    0, 0, 0, 106, 238, 71, 22, 0, 0, 0, 11, 73, 68, 65, 84, 120, 156, 99, 96, 100, 2, 0, 0, 7, 0,
    4, 118, 73, 227, 40, 0, 0, 0, 0, 73, 69, 78, 68, 174, 66, 96, 130,
];

#[test]
fn extension_is_what_follows_the_last_dot() {
    assert_eq!(extension_of("bullet.png"), Some("png".to_string()));
    assert_eq!(extension_of("sprites/enemy.idle.png"), Some("png".to_string()));
    assert_eq!(extension_of("a.b/c.d"), Some("d".to_string()));
    assert_eq!(extension_of("name."), Some(String::new()));
}

#[test]
fn extension_is_missing_without_a_dot_in_the_file_name() {
    assert_eq!(extension_of(""), None);
    assert_eq!(extension_of("bullet"), None);
    assert_eq!(extension_of("sprites.d/bullet"), None);
    assert_eq!(extension_of(".hidden"), None);
    assert_eq!(extension_of("dir/.hidden"), None);
}

#[test]
fn decode_reads_size_format_and_pixels() {
    let image = decode_image(&RGBA_2X1.to_vec(), "bullet.png");
    assert_eq!(
        image,
        Some(LeafImage {
            width: 2,
            height: 1,
            format: PixelFormat::Rgba8UnormSrgb,
            data: vec![255, 0, 0, 255, 0, 128, 255, 64],
        })
    );
}

#[test]
fn decode_widens_grey_to_four_channels() {
    let image = decode_image(&GRAY_1X1.to_vec(), "dot.png");
    assert_eq!(
        image,
        Some(LeafImage {
            width: 1,
            height: 1,
            format: PixelFormat::Rgba8UnormSrgb,
            data: vec![7, 7, 7, 255],
        })
    );
}

#[test]
fn decode_keeps_sixteen_bit_grey_in_one_channel() {
    let image = decode_image(&GRAY16_1X1.to_vec(), "deep.png").unwrap();
    assert_eq!((image.width, image.height), (1, 1));
    assert_eq!(image.format, PixelFormat::R16Uint);
    assert_eq!(image.data.len(), 2);
    assert_eq!(decode_image(&GRAY16_1X1.to_vec(), "deep.png"), Some(image));
}

#[test]
fn decode_twice_gives_identical_pixels() {
    let bytes = RGBA_2X1.to_vec();
    let first = decode_image(&bytes, "bullet.png");
    let second = decode_image(&bytes, "bullet.png");
    assert!(first.is_some());
    assert_eq!(first, second);
}

#[test]
fn decode_refuses_bad_bytes_and_unknown_extensions() {
    assert_eq!(decode_image(&vec![1, 2, 3], "bullet.png"), None);
    assert_eq!(decode_image(&Vec::new(), "bullet.png"), None);
    assert_eq!(decode_image(&RGBA_2X1.to_vec(), "bullet"), None);
    assert_eq!(decode_image(&RGBA_2X1.to_vec(), "bullet.sprite"), None);
    let mut cut = RGBA_2X1.to_vec();
    cut.truncate(40);
    assert_eq!(decode_image(&cut, "bullet.png"), None);
}
