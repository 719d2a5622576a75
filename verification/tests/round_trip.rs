use lsb_stego::extract_from_image;
use lsb_stego::hide_in_image;
use raster::Color;
use raster::Image;

fn patterned(width: i32, height: i32) -> Image {
    let mut image = Image::blank(width, height);
    for y in 0..height {
        for x in 0..width {
            let seed = (y * 31 + x * 7) as u32;
            let color = Color::rgba(
                (seed % 256) as u8,
                (seed * 3 % 256) as u8,
                (seed * 5 % 256) as u8,
                (seed * 11 % 256) as u8,
            );
            image.set_pixel(x, y, color).unwrap();
        }
    }
    image
}

fn payload(len: usize) -> Vec<u8> {
    (0..len).map(|i| (i * 37 + 11) as u8).collect()
}

#[test]
fn round_trip_of_a_short_payload() {
    let data = payload(5);
    let hidden = hide_in_image(patterned(16, 16), &data).unwrap();
    assert_eq!(extract_from_image(hidden, data.len()), Ok(data));
}

#[test]
fn round_trip_of_a_payload_that_fills_every_slot() {
    // 9 by 9 pixels: 8 * 8 = 64 usable slots, 8 bytes.
    let data = vec![0x00, 0xFF, 0x0F, 0xF0, 0xA5, 0x5A, 0x01, 0x80];
    let hidden = hide_in_image(patterned(9, 9), &data).unwrap();
    assert_eq!(extract_from_image(hidden, 8), Ok(data));
}

#[test]
fn round_trip_in_the_smallest_image_that_holds_a_byte() {
    let hidden = hide_in_image(patterned(3, 5), &[0xC3]).unwrap();
    assert_eq!(extract_from_image(hidden, 1), Ok(vec![0xC3]));
    let hidden = hide_in_image(patterned(5, 3), &[0x3C]).unwrap();
    assert_eq!(extract_from_image(hidden, 1), Ok(vec![0x3C]));
    let hidden = hide_in_image(patterned(2, 9), &[0x99]).unwrap();
    assert_eq!(extract_from_image(hidden, 1), Ok(vec![0x99]));
}

#[test]
fn round_trip_of_every_byte_value() {
    let data: Vec<u8> = (0..=255).collect();
    let hidden = hide_in_image(patterned(65, 33), &data).unwrap();
    assert_eq!(extract_from_image(hidden, 256), Ok(data));
}

#[test]
fn round_trip_of_the_empty_payload() {
    let image = patterned(4, 4);
    let before = image.bytes.clone();
    let hidden = hide_in_image(image, &[]).unwrap();
    assert_eq!(hidden.bytes, before);
    assert_eq!(extract_from_image(hidden, 0), Ok(vec![]));
}

#[test]
fn a_prefix_of_the_payload_can_be_extracted() {
    let data = payload(6);
    let hidden = hide_in_image(patterned(10, 10), &data).unwrap();
    assert_eq!(extract_from_image(hidden, 3), Ok(data[..3].to_vec()));
}

#[test]
fn embedding_twice_gives_the_same_bytes() {
    let data = payload(7);
    let first = hide_in_image(patterned(12, 9), &data).unwrap();
    let second = hide_in_image(patterned(12, 9), &data).unwrap();
    assert_eq!(first.width, second.width);
    assert_eq!(first.height, second.height);
    assert_eq!(first.bytes, second.bytes);
}

#[test]
fn embedding_again_into_the_result_changes_nothing() {
    let data = payload(4);
    let first = hide_in_image(patterned(8, 8), &data).unwrap();
    let bytes = first.bytes.clone();
    let second = hide_in_image(first, &data).unwrap();
    assert_eq!(second.bytes, bytes);
}
