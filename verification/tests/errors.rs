use lsb_stego::extract_from_image;
use lsb_stego::hide_in_image;
use lsb_stego::scan::offset_fits;
use lsb_stego::scan::payload_fits;
use lsb_stego::StegoError;
use raster::Image;

fn error_of(result: Result<Image, StegoError>) -> StegoError {
    match result {
        Ok(_) => panic!("embedding succeeded"),
        Err(e) => e,
    }
}

#[test]
fn a_payload_with_more_bits_than_slots_is_refused() {
    // 4 by 4 pixels: 9 usable slots, so one byte fits and two do not.
    assert!(hide_in_image(Image::blank(4, 4), &[7]).is_ok());
    assert_eq!(error_of(hide_in_image(Image::blank(4, 4), &[7, 8])), StegoError::CapacityExceeded);
}

#[test]
fn the_capacity_counts_usable_slots_not_pixels() {
    // 4 by 4 pixels are 16 pixels, which would be two bytes.
    assert_eq!(error_of(hide_in_image(Image::blank(4, 4), &[0, 0])), StegoError::CapacityExceeded);
    // 5 by 3 pixels: 4 * 2 = 8 usable slots, exactly one byte.
    assert!(hide_in_image(Image::blank(5, 3), &[0xEE]).is_ok());
    assert_eq!(error_of(hide_in_image(Image::blank(5, 3), &[1, 2])), StegoError::CapacityExceeded);
    // 4 by 3 pixels: 3 * 2 = 6 usable slots, not even one byte.
    assert_eq!(error_of(hide_in_image(Image::blank(4, 3), &[1])), StegoError::CapacityExceeded);
}

#[test]
fn an_image_of_one_row_or_one_column_holds_nothing() {
    assert_eq!(error_of(hide_in_image(Image::blank(100, 1), &[1])), StegoError::CapacityExceeded);
    assert_eq!(error_of(hide_in_image(Image::blank(1, 100), &[1])), StegoError::CapacityExceeded);
    assert!(hide_in_image(Image::blank(100, 1), &[]).is_ok());
}

#[test]
fn an_image_without_pixels_holds_nothing() {
    let empty = Image { width: 0, height: 0, bytes: Vec::new() };
    assert_eq!(error_of(hide_in_image(empty.clone(), &[1])), StegoError::CapacityExceeded);
    assert!(hide_in_image(empty.clone(), &[]).is_ok());
    assert_eq!(extract_from_image(empty.clone(), 0), Ok(vec![]));
    assert_eq!(extract_from_image(empty, 1), Err(StegoError::CapacityExceeded));
    let negative = Image { width: -5, height: -5, bytes: Vec::new() };
    assert_eq!(error_of(hide_in_image(negative.clone(), &[1])), StegoError::CapacityExceeded);
    assert_eq!(extract_from_image(negative, 1), Err(StegoError::CapacityExceeded));
}

#[test]
fn extraction_beyond_the_slots_is_refused() {
    assert_eq!(extract_from_image(Image::blank(4, 4), 1), Ok(vec![0]));
    assert_eq!(extract_from_image(Image::blank(4, 4), 2), Err(StegoError::CapacityExceeded));
    assert_eq!(
        extract_from_image(Image::blank(4, 4), usize::MAX),
        Err(StegoError::CapacityExceeded)
    );
}

#[test]
fn a_buffer_that_ends_early_is_a_pixel_access_failure() {
    // 4 by 4 pixels need 64 bytes; slot 7 is pixel (1, 2) at bytes 36..40.
    let short = Image { width: 4, height: 4, bytes: vec![0; 39] };
    assert_eq!(error_of(hide_in_image(short.clone(), &[1])), StegoError::PixelAccessFailure);
    assert_eq!(extract_from_image(short, 1), Err(StegoError::PixelAccessFailure));
    let enough = Image { width: 4, height: 4, bytes: vec![0; 40] };
    assert!(hide_in_image(enough.clone(), &[1]).is_ok());
    assert_eq!(extract_from_image(enough, 1), Ok(vec![0]));
}

#[test]
fn an_empty_buffer_is_a_pixel_access_failure() {
    let hollow = Image { width: i32::MAX, height: i32::MAX, bytes: Vec::new() };
    assert_eq!(error_of(hide_in_image(hollow.clone(), &[1])), StegoError::PixelAccessFailure);
    assert_eq!(extract_from_image(hollow.clone(), 1), Err(StegoError::PixelAccessFailure));
    assert!(hide_in_image(hollow, &[]).is_ok());
}

#[test]
fn the_capacity_error_comes_before_the_pixel_access_failure() {
    let short = Image { width: 4, height: 4, bytes: Vec::new() };
    assert_eq!(error_of(hide_in_image(short.clone(), &[1, 2])), StegoError::CapacityExceeded);
    assert_eq!(extract_from_image(short, 2), Err(StegoError::CapacityExceeded));
}

#[test]
fn offsets_past_the_largest_i32_do_not_fit() {
    assert!(offset_fits(4, 0, 0));
    assert!(offset_fits(4, 3, 3));
    // (y * w + x) * 4 + 4 <= 2147483647 holds up to pixel index 536870910.
    assert!(offset_fits(536_870_910, 0, 1));
    assert!(!offset_fits(536_870_911, 0, 1));
    assert!(offset_fits(0, 536_870_910, 0));
    assert!(!offset_fits(0, 536_870_911, 0));
    assert!(!offset_fits(i32::MAX, i32::MAX, i32::MAX));
}

#[test]
fn a_payload_fits_when_each_bit_has_a_slot() {
    assert!(payload_fits(4, 4, 1));
    assert!(!payload_fits(4, 4, 2));
    assert!(payload_fits(9, 9, 8));
    assert!(!payload_fits(9, 9, 9));
    assert!(payload_fits(0, 0, 0));
    assert!(!payload_fits(0, 0, 1));
    assert!(!payload_fits(i32::MAX, i32::MAX, usize::MAX));
}
