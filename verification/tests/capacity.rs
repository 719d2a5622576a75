use lsb_stego::capacity;
use lsb_stego::hide_in_image;
use lsb_stego::payload_capacity;
use lsb_stego::usable_slot_count;
use raster::Image;

#[test]
fn usable_slots_leave_out_one_row_and_one_column() {
    assert_eq!(usable_slot_count(4, 4), 9);
    assert_eq!(usable_slot_count(2, 2), 1);
    assert_eq!(usable_slot_count(10, 3), 18);
    assert_eq!(usable_slot_count(3, 10), 18);
    assert_eq!(usable_slot_count(1, 50), 0);
    assert_eq!(usable_slot_count(50, 1), 0);
}

#[test]
fn images_without_pixels_have_no_usable_slots() {
    assert_eq!(usable_slot_count(0, 0), 0);
    assert_eq!(usable_slot_count(0, 10), 0);
    assert_eq!(usable_slot_count(-3, -3), 0);
    assert_eq!(usable_slot_count(i32::MIN, i32::MIN), 0);
}

#[test]
fn the_largest_image_has_its_slots_counted_without_overflow() {
    assert_eq!(usable_slot_count(i32::MAX, i32::MAX), 2147483646 * 2147483646);
}

#[test]
fn advisory_capacity_is_an_eighth_of_the_pixel_count() {
    assert_eq!(capacity(&Image::blank(4, 4)), 2);
    assert_eq!(capacity(&Image::blank(8, 2)), 2);
    assert_eq!(capacity(&Image::blank(2, 8)), 2);
    assert_eq!(capacity(&Image::blank(5, 5)), 3);
    assert_eq!(capacity(&Image::blank(100, 50)), 625);
    assert_eq!(capacity(&Image::blank(1, 7)), 0);
}

#[test]
fn advisory_capacity_of_an_image_without_pixels_is_zero() {
    assert_eq!(capacity(&Image { width: 0, height: 0, bytes: Vec::new() }), 0);
    assert_eq!(capacity(&Image { width: -4, height: -4, bytes: Vec::new() }), 0);
    assert_eq!(capacity(&Image { width: 16, height: 0, bytes: Vec::new() }), 0);
}

#[test]
fn advisory_capacity_reads_width_and_height_not_the_buffer() {
    let image = Image { width: 40_000, height: 50_000, bytes: Vec::new() };
    assert_eq!(capacity(&image), 250_000_000);
    let image = Image { width: i32::MAX, height: i32::MAX, bytes: Vec::new() };
    assert_eq!(capacity(&image), 2147483647 * 2147483647 / 8);
}

#[test]
fn payload_capacity_is_an_eighth_of_the_usable_slots() {
    assert_eq!(payload_capacity(&Image::blank(4, 4)), 1);
    assert_eq!(payload_capacity(&Image::blank(9, 9)), 8);
    assert_eq!(payload_capacity(&Image::blank(9, 2)), 1);
    assert_eq!(payload_capacity(&Image::blank(8, 2)), 0);
    assert_eq!(payload_capacity(&Image::blank(100, 50)), 606);
}

#[test]
fn advisory_capacity_promises_more_than_fits() {
    let image = Image::blank(4, 4);
    let advised = capacity(&image) as usize;
    let real = payload_capacity(&image) as usize;
    assert_eq!(advised, 2);
    assert_eq!(real, 1);
    assert!(hide_in_image(image.clone(), &vec![0xAB; real]).is_ok());
    assert!(hide_in_image(image, &vec![0xAB; advised]).is_err());
}
