use text_image_generator::error::Error;
use text_image_generator::bindings::{Filter, RESIZE_LIMIT};
use text_image_generator::raster::Image;

fn ramp(width: u32, height: u32) -> Image {
    let data: Vec<u8> = (0..width * height).map(|i| (i % 251) as u8).collect();
    Image::from_vec(width, height, data).unwrap()
}

#[test]
fn from_vec_wants_one_sample_for_each_place() {
    assert!(Image::from_vec(2, 2, vec![1, 2, 3, 4]).is_ok());
    assert_eq!(Image::from_vec(2, 2, vec![1, 2, 3]).err(), Some(Error::DimensionMismatch));
    assert_eq!(Image::from_vec(2, 2, vec![1, 2, 3, 4, 5]).err(), Some(Error::DimensionMismatch));
    assert!(Image::from_vec(0, 7, vec![]).is_ok());
}

#[test]
fn samples_are_stored_row_by_row() {
    let img = Image::from_vec(3, 2, vec![1, 2, 3, 4, 5, 6]).unwrap();
    assert_eq!(img.width(), 3);
    assert_eq!(img.height(), 2);
    assert_eq!(img.get_pixel(0, 0), 1);
    assert_eq!(img.get_pixel(2, 0), 3);
    assert_eq!(img.get_pixel(0, 1), 4);
    assert_eq!(img.get_pixel(2, 1), 6);
    assert_eq!(img.into_vec(), vec![1, 2, 3, 4, 5, 6]);
}

#[test]
fn put_pixel_changes_one_sample() {
    let mut img = Image::from_pixel(3, 2, 9);
    img.put_pixel(1, 1, 200);
    assert_eq!(img.as_vec(), &vec![9, 9, 9, 9, 200, 9]);
}

#[test]
fn copy_from_puts_an_image_at_its_place() {
    let mut canvas = Image::from_pixel(4, 3, 0);
    let stamp = Image::from_vec(2, 2, vec![1, 2, 3, 4]).unwrap();
    assert_eq!(canvas.copy_from(&stamp, 2, 1), Ok(()));
    assert_eq!(canvas.as_vec(), &vec![0, 0, 0, 0, 0, 0, 1, 2, 0, 0, 3, 4]);
}

#[test]
fn copy_from_refuses_what_reaches_beyond_the_edge() {
    let mut canvas = Image::from_pixel(4, 3, 7);
    let stamp = Image::from_vec(2, 2, vec![1, 2, 3, 4]).unwrap();
    assert_eq!(canvas.copy_from(&stamp, 3, 0), Err(Error::DimensionMismatch));
    assert_eq!(canvas.copy_from(&stamp, 0, 2), Err(Error::DimensionMismatch));
    assert_eq!(canvas.copy_from(&stamp, u32::MAX, 0), Err(Error::DimensionMismatch));
    assert_eq!(canvas.as_vec(), &vec![7; 12]);
}

#[test]
fn crop_takes_a_part() {
    let img = Image::from_vec(4, 3, vec![0, 1, 2, 3, 4, 5, 6, 7, 8, 9, 10, 11]).unwrap();
    let part = img.crop(1, 1, 2, 2);
    assert_eq!((part.width(), part.height()), (2, 2));
    assert_eq!(part.into_vec(), vec![5, 6, 9, 10]);
    let none = img.crop(4, 3, 0, 0);
    assert_eq!(none.into_vec(), Vec::<u8>::new());
}

#[test]
fn resize_to_the_same_size_copies() {
    let img = ramp(7, 5);
    assert!(img.can_resize(7, 5));
    let same = img.resize(7, 5, Filter::Triangle);
    assert_eq!(same.as_vec(), img.as_vec());
    let same = img.resize(7, 5, Filter::CatmullRom);
    assert_eq!(same.as_vec(), img.as_vec());
}

#[test]
fn resize_gives_the_size_asked_for() {
    let img = ramp(7, 5);
    let out = img.resize(3, 11, Filter::Triangle);
    assert_eq!((out.width(), out.height()), (3, 11));
    assert_eq!(out.as_vec().len(), 33);
    let none = img.resize(0, 4, Filter::CatmullRom);
    assert_eq!((none.width(), none.height()), (0, 4));
}

#[test]
fn resize_changes_the_samples() {
    let img = Image::from_vec(2, 1, vec![0, 200]).unwrap();
    let out = img.resize(4, 1, Filter::Triangle);
    assert_ne!(out.as_vec(), &vec![0, 200, 0, 0]);
    assert_eq!(out.get_pixel(0, 0), 0);
    assert_eq!(out.get_pixel(3, 0), 200);
    let flat = Image::from_pixel(6, 6, 77).resize(3, 2, Filter::CatmullRom);
    assert_eq!(flat.as_vec(), &vec![77; 6]);
}

#[test]
fn can_resize_refuses_what_cannot_be_allocated() {
    let img = Image::from_pixel(1, 1, 0);
    assert!(!Image::fits_resize(u32::MAX, 1, u32::MAX, u32::MAX));
    assert!(img.can_resize(100, 100));
}

#[test]
fn filter3x3_is_a_correlation_cut_off_at_black_and_white() {
    let img = Image::from_vec(3, 4, vec![10, 20, 30, 40, 50, 60, 70, 80, 90, 100, 110, 120]).unwrap();
    let sharp = img.filter3x3(&[-1, -1, -1, -1, 9, -1, -1, -1, -1]);
    assert_eq!(sharp.into_vec(), vec![0, 0, 0, 10, 50, 90, 40, 80, 120, 160, 200, 240]);
    let emboss = img.filter3x3(&[-2, -1, 0, -1, 1, 1, 0, 1, 2]);
    assert_eq!(
        emboss.into_vec(),
        vec![130, 170, 150, 250, 255, 255, 255, 255, 255, 220, 255, 240]
    );
    let kept = img.filter3x3(&[0, 0, 0, 0, 1, 0, 0, 0, 0]);
    assert_eq!(kept.as_vec(), img.as_vec());
}

#[test]
fn draw_hollow_rect_paints_the_outline_only() {
    let mut img = Image::from_pixel(5, 4, 0);
    img.draw_hollow_rect(1, 1, 3, 3, 9);
    assert_eq!(
        img.as_vec(),
        &vec![0, 0, 0, 0, 0, 0, 9, 9, 9, 0, 0, 9, 0, 9, 0, 0, 9, 9, 9, 0]
    );
}

#[test]
fn draw_hollow_rect_paints_what_lies_on_the_image() {
    let mut img = Image::from_pixel(3, 3, 1);
    img.draw_hollow_rect(-1, 1, 3, 5, 7);
    assert_eq!(img.as_vec(), &vec![1, 1, 1, 7, 7, 1, 1, 7, 1]);
    let mut far = Image::from_pixel(2, 2, 1);
    far.draw_hollow_rect(5, 5, 2, 2, 7);
    assert_eq!(far.as_vec(), &vec![1; 4]);
}

#[test]
fn clone_keeps_the_samples() {
    let img = ramp(4, 4);
    let copy = img.clone();
    assert_eq!(copy.as_vec(), img.as_vec());
    assert_eq!((copy.width(), copy.height()), (4, 4));
}

#[test]
fn filter3x3_takes_images_without_samples_and_large_kernels() {
    let none = Image::from_vec(0, 0, vec![]).unwrap();
    assert_eq!(none.filter3x3(&[1; 9]).into_vec(), Vec::<u8>::new());
    let thin = Image::from_vec(0, 3, vec![]).unwrap();
    assert_eq!(thin.filter3x3(&[1; 9]).height(), 3);
    let white = Image::from_pixel(3, 3, 255);
    assert_eq!(white.filter3x3(&[900_000; 9]).into_vec(), vec![255; 9]);
    assert_eq!(white.filter3x3(&[-900_000; 9]).into_vec(), vec![0; 9]);
    let one = Image::from_pixel(1, 1, 7);
    assert_eq!(one.filter3x3(&[1; 9]).into_vec(), vec![63]);
}

#[test]
fn draw_hollow_rect_takes_rectangles_far_beyond_the_image() {
    let mut img = Image::from_pixel(4, 4, 0);
    img.draw_hollow_rect(-100_000, -100_000, 200_000, 100_003, 5);
    assert_eq!(img.as_vec(), &vec![0, 0, 0, 0, 0, 0, 0, 0, 5, 5, 5, 5, 0, 0, 0, 0]);
    img.draw_hollow_rect(3, -0x100_0000, 1, 0x100_0000 + 2, 6);
    assert_eq!(img.as_vec(), &vec![0, 0, 0, 6, 0, 0, 0, 6, 5, 5, 5, 5, 0, 0, 0, 0]);
    let mut none = Image::from_vec(0, 0, vec![]).unwrap();
    none.draw_hollow_rect(0, 0, 1, 1, 9);
    assert_eq!(none.into_vec(), Vec::<u8>::new());
}

#[test]
fn with_samples_keeps_the_size() {
    let img = ramp(3, 2);
    let other = img.with_samples(vec![9, 8, 7, 6, 5, 4]);
    assert_eq!((other.width(), other.height()), (3, 2));
    assert_eq!(other.get_pixel(1, 1), 5);
}

#[test]
fn no_side_of_a_resize_is_longer_than_the_limit() {
    assert_eq!(RESIZE_LIMIT, 32768);
    assert!(Image::fits_resize(32768, 32768, 1, 1));
    assert!(Image::fits_resize(1, 1, 32768, 1));
    assert!(Image::fits_resize(1, 1, 1, 32768));
    assert!(!Image::fits_resize(32769, 1, 1, 1));
    assert!(!Image::fits_resize(1, 32769, 1, 1));
    assert!(!Image::fits_resize(1, 1, 32769, 1));
    assert!(!Image::fits_resize(1, 1, 1, 32769));
    let img = Image::from_pixel(2, 2, 0);
    assert!(img.can_resize(32768, 1));
    assert!(!img.can_resize(32769, 1));
}

#[test]
fn resize_takes_sides_as_long_as_the_limit() {
    let row: Vec<u8> = (0..32768u32).map(|i| (i % 256) as u8).collect();
    let wide = Image::from_vec(32768, 1, row.clone()).unwrap();
    let high = Image::from_vec(1, 32768, row).unwrap();
    let small = Image::from_vec(3, 1, vec![0, 100, 200]).unwrap();
    for filter in [Filter::Triangle, Filter::CatmullRom] {
        for side in [32767u32, 32765, 21846, 16385, 3, 1] {
            let out = wide.resize(side, 1, filter);
            assert_eq!((out.width(), out.height()), (side, 1));
            let out = high.resize(1, side, filter);
            assert_eq!((out.width(), out.height()), (1, side));
        }
        let out = small.resize(32768, 1, filter);
        assert_eq!(out.width(), 32768);
        if filter == Filter::Triangle {
            assert_eq!(out.get_pixel(0, 0), 0);
            assert_eq!(out.get_pixel(32767, 0), 200);
        }
        let flat = Image::from_pixel(32768, 1, 9).resize(32767, 1, filter);
        assert_eq!(flat.as_vec(), &vec![9; 32767]);
    }
}
