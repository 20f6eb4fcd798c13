use rand::rngs::StdRng;
use rand::SeedableRng;
use text_image_generator::effect_helper::math::Random;
use text_image_generator::error::Error;
use text_image_generator::merge_util::{is_picture, BgFactory, MergeDraws, MergeUtil};
use text_image_generator::bindings::Filter;
use text_image_generator::raster::Image;

fn plain_merge() -> MergeUtil {
    MergeUtil {
        height_diff: Random::new_uniform(2_000_000, 10_000_000),
        bg_alpha: Random::new_gaussian(500_000, 1_500_000),
        bg_beta: Random::new_gaussian(-50_000_000, 50_000_000),
        font_alpha: Random::new_uniform(200_000, 1_000_000),
        reverse_prob: 0,
    }
}

fn neutral_draws() -> MergeDraws {
    MergeDraws { height_diff: 40_000_000, bg_alpha: 1_000_000, bg_beta: 0, font_alpha: 1_000_000 }
}

#[test]
fn gray_on_white_stays_between_the_extremes() {
    let merge = MergeUtil {
        height_diff: Random::new_uniform(40_000_000, 40_000_000),
        ..plain_merge()
    };
    let font = Image::from_vec(100, 20, vec![128; 2000]).unwrap();
    let bg = Image::from_vec(200, 60, vec![255; 12000]).unwrap();
    let out = merge.poisson_edit_with(&font, &bg, neutral_draws(), (10, 20), false).unwrap();
    assert_eq!(out.width(), 200);
    assert_eq!(out.height(), 60);
    let mut inside = 0;
    for y in 0..60u32 {
        for x in 0..200u32 {
            let v = out.get_pixel(x, y);
            let in_mask = (20..120).contains(&x) && (10..30).contains(&y);
            if in_mask {
                assert!(v >= 127, "({x},{y}) = {v}");
                if v > 127 && v < 255 {
                    inside += 1;
                }
            } else {
                assert_eq!(v, 255, "({x},{y})");
            }
        }
    }
    assert!(inside > 0);
}

#[test]
fn poisson_edit_keeps_the_background_size() {
    let merge = plain_merge();
    let mut rng = StdRng::seed_from_u64(7);
    let font = Image::from_vec(30, 10, vec![200; 300]).unwrap();
    let bg = Image::from_vec(64, 32, vec![90; 2048]).unwrap();
    for _ in 0..5 {
        let draws = MergeDraws {
            height_diff: 5_000_000,
            bg_alpha: 900_000,
            bg_beta: 3_000_000,
            font_alpha: 600_000,
        };
        let out = merge.poisson_edit(&font, &bg, draws, &mut rng).unwrap();
        assert_eq!((out.width(), out.height()), (64, 32));
    }
}

#[test]
fn poisson_edit_refuses_a_foreground_as_high_as_the_background() {
    let merge = MergeUtil { height_diff: Random::new_uniform(0, 0), ..plain_merge() };
    let mut rng = StdRng::seed_from_u64(1);
    let font = Image::from_vec(4, 4, vec![0; 16]).unwrap();
    let bg = Image::from_vec(8, 8, vec![0; 64]).unwrap();
    let r = merge.poisson_edit(&font, &bg, neutral_draws(), &mut rng);
    assert_eq!(r.err(), Some(Error::DimensionMismatch));
}

#[test]
fn test_change_bg_color() {
    let merge = plain_merge();
    let gray = Image::from_vec(4, 2, vec![0, 49, 50, 51, 100, 200, 254, 255]).unwrap();
    let res = merge.random_change_bgcolor(&gray, 1_000_000, 0);
    assert_eq!(res.into_vec(), vec![50, 50, 50, 51, 100, 200, 254, 255]);
}

#[test]
fn the_light_changes_by_factor_and_offset() {
    let merge = plain_merge();
    let gray = Image::from_vec(4, 2, vec![0, 49, 50, 51, 100, 200, 254, 255]).unwrap();
    let res = merge.random_change_bgcolor(&gray, 1_250_000, -10_500_000);
    // 100 * 1.25 - 10.5 = 114.5, rounded down.
    assert_eq!(res.into_vec(), vec![50, 50, 52, 53, 114, 239, 255, 255]);
    let res = merge.random_change_bgcolor(&gray, 500_000, 50_000_000);
    assert_eq!(res.into_vec(), vec![50, 74, 75, 75, 100, 150, 177, 177]);
}

#[test]
fn factor_and_offset_are_cut_off_at_the_ends_of_their_intervals() {
    let merge = plain_merge();
    let gray = Image::from_vec(3, 1, vec![60, 100, 200]).unwrap();
    let wild = merge.random_change_bgcolor(&gray, 9_000_000, -900_000_000);
    let tame = merge.random_change_bgcolor(&gray, 1_500_000, -50_000_000);
    assert_eq!(wild.as_vec(), tame.as_vec());
    assert_eq!(tame.into_vec(), vec![50, 100, 250]);
}

#[test]
fn test_random_pad() {
    let merge = MergeUtil { height_diff: Random::new_gaussian(2_000_000, 10_000_000), ..plain_merge() };
    let mut rng = StdRng::seed_from_u64(21);
    let gray = Image::from_pixel(300, 40, 128);
    for _ in 0..20 {
        let res = merge.random_pad(&gray, 64, 1000, 6_000_000, &mut rng).unwrap();
        assert_eq!((res.width(), res.height()), (1000, 64));
    }
}

#[test]
fn a_padded_foreground_lies_where_it_was_put() {
    let merge = plain_merge();
    let font = Image::from_vec(4, 2, vec![10, 20, 30, 40, 50, 60, 70, 80]).unwrap();
    // 6 - 3.5 = 2.5: the foreground keeps its height of 2 and its width of 4.
    let out = merge.random_pad_with(&font, 6, 8, 3_500_000, 2, 3).unwrap();
    assert_eq!((out.width(), out.height()), (8, 6));
    let mut expected = vec![0u8; 48];
    expected[2 * 8 + 3..2 * 8 + 7].copy_from_slice(&[10, 20, 30, 40]);
    expected[3 * 8 + 3..3 * 8 + 7].copy_from_slice(&[50, 60, 70, 80]);
    assert_eq!(out.into_vec(), expected);
}

#[test]
fn a_padded_foreground_is_resized_to_the_height_left() {
    let merge = plain_merge();
    let font = Image::from_vec(4, 2, vec![10, 20, 30, 40, 50, 60, 70, 80]).unwrap();
    // 12 - 2 = 10 rows, so 4 * 10 / 2 = 20 columns, of which the background has 16.
    let out = merge.random_pad_with(&font, 12, 16, 2_000_000, 1, 0).unwrap();
    let scaled = font.resize(16, 10, Filter::CatmullRom);
    for y in 0..12u32 {
        for x in 0..16u32 {
            let expected = if (1..11).contains(&y) { scaled.get_pixel(x, y - 1) } else { 0 };
            assert_eq!(out.get_pixel(x, y), expected);
        }
    }
    // 12 - 10 = 2 rows, so 4 * 2 / 2 = 4 columns.
    let out = merge.random_pad_with(&font, 12, 16, 10_000_000, 10, 12).unwrap();
    assert_eq!(out.get_pixel(12, 10), 10);
    assert_eq!(out.get_pixel(15, 11), 80);
    assert_eq!(out.get_pixel(11, 10), 0);
}

#[test]
fn padding_refuses_what_does_not_fit() {
    let merge = plain_merge();
    let font = Image::from_vec(4, 2, vec![10, 20, 30, 40, 50, 60, 70, 80]).unwrap();
    assert!(merge.random_pad_with(&font, 6, 8, 3_500_000, 4, 4).is_ok());
    for (top, left) in [(0, 0), (5, 0), (1, 5)] {
        assert_eq!(
            merge.random_pad_with(&font, 6, 8, 3_500_000, top, left).err(),
            Some(Error::DimensionMismatch)
        );
    }
    assert_eq!(
        merge.random_pad_with(&font, 6, 0, 3_500_000, 1, 0).err(),
        Some(Error::DimensionMismatch)
    );
    let flat = MergeUtil { height_diff: Random::new_uniform(-5_000_000, 0), ..plain_merge() };
    let mut rng = StdRng::seed_from_u64(1);
    assert_eq!(
        flat.random_pad(&font, 6, 8, -1_000_000, &mut rng).err(),
        Some(Error::DimensionMismatch)
    );
    assert_eq!(
        flat.random_pad(&font, 6, 8, 0, &mut rng).err(),
        Some(Error::DimensionMismatch)
    );
}

#[test]
fn a_foreground_without_height_gets_a_width_all_the_same() {
    let merge = plain_merge();
    let font = Image::from_vec(4, 0, vec![]).unwrap();
    let out = merge.random_pad_with(&font, 6, 8, 3_000_000, 1, 0).unwrap();
    assert_eq!(out.into_vec(), vec![0; 48]);
    let none = Image::from_vec(0, 0, vec![]).unwrap();
    let out = merge.random_pad_with(&none, 6, 8, 3_000_000, 3, 7).unwrap();
    assert_eq!(out.into_vec(), vec![0; 48]);
}

#[test]
fn test_poisson_editing() {
    let merge = MergeUtil { reverse_prob: 500_000, ..plain_merge() };
    let mut rng = StdRng::seed_from_u64(77);
    let gray = Image::from_vec(
        200,
        40,
        (0..8000).map(|i| if (i / 200 + i % 200) % 9 < 3 { 30 } else { 230 }).collect(),
    )
    .unwrap();
    let bg = Image::from_vec(1000, 64, (0..64000).map(|i| (100 + i % 50) as u8).collect()).unwrap();
    let draws =
        MergeDraws { height_diff: 6_000_000, bg_alpha: 1_100_000, bg_beta: -5_000_000, font_alpha: 800_000 };
    let res = merge.poisson_edit(&gray, &bg, draws, &mut rng).unwrap();
    assert_eq!((res.width(), res.height()), (1000, 64));
}

#[test]
fn a_reversed_merge_is_the_merge_inverted() {
    let merge = plain_merge();
    let font = Image::from_vec(
        30,
        10,
        (0..300).map(|i| if i % 7 < 3 { 20 } else { 250 }).collect(),
    )
    .unwrap();
    let bg = Image::from_vec(64, 32, (0..2048).map(|i| (60 + i % 100) as u8).collect()).unwrap();
    let draws =
        MergeDraws { height_diff: 5_000_000, bg_alpha: 900_000, bg_beta: 3_000_000, font_alpha: 600_000 };
    let plain = merge.poisson_edit_with(&font, &bg, draws, (2, 0), false).unwrap();
    let reversed = merge.poisson_edit_with(&font, &bg, draws, (2, 0), true).unwrap();
    let inverted: Vec<u8> = plain.as_vec().iter().map(|v| 255 - v).collect();
    assert_eq!(reversed.as_vec(), &inverted);
    let lit = merge.random_change_bgcolor(&bg, 900_000, 3_000_000);
    assert_eq!(plain.get_pixel(0, 0), lit.get_pixel(0, 0));
    assert_eq!(plain.get_pixel(63, 31), lit.get_pixel(63, 31));
    assert_ne!(plain.as_vec(), lit.as_vec());
}

#[test]
fn a_merge_is_always_reversed_when_its_probability_is_one() {
    let font = Image::from_pixel(8, 4, 0);
    let bg = Image::from_pixel(16, 8, 100);
    let draws = MergeDraws { height_diff: 4_000_000, bg_alpha: 1_000_000, bg_beta: 0, font_alpha: 1_000_000 };
    let mut rng = StdRng::seed_from_u64(4);
    let always = MergeUtil { reverse_prob: 1_000_000, ..plain_merge() };
    let never = plain_merge();
    for _ in 0..50 {
        // A dark foreground names no cell, so the merge is the background.
        let out = always.poisson_edit(&font, &bg, draws, &mut rng).unwrap();
        assert_eq!(out.as_vec(), &vec![155; 128]);
        let out = never.poisson_edit(&font, &bg, draws, &mut rng).unwrap();
        assert_eq!(out.as_vec(), &vec![100; 128]);
    }
}

fn pictures() -> Vec<Image> {
    vec![
        Image::from_vec(20, 10, (0..200).map(|i| i as u8).collect()).unwrap(),
        Image::from_pixel(5, 5, 9),
        Image::from_vec(0, 3, vec![]).unwrap(),
        Image::from_pixel(8, 40, 200),
    ]
}

#[test]
fn test_background() {
    let mut rng = StdRng::seed_from_u64(8);
    let bg_factory = BgFactory::new(String::from("synth_text/background"), pictures(), 6, 10, &mut rng).unwrap();
    assert_eq!(bg_factory.len(), 3);
    assert_eq!(bg_factory.height(), 6);
    assert_eq!(bg_factory.width(), 10);
    assert_eq!(bg_factory.bg_dir(), "synth_text/background");
    for i in 0..3 {
        let a = bg_factory.index(i);
        assert_eq!((a.width(), a.height()), (10, 6));
    }
    assert_eq!(bg_factory.index(1).as_vec(), &vec![9; 60]);
    assert_eq!(bg_factory.index(2).as_vec(), &vec![200; 60]);
    assert!(bg_factory.get(2).is_some());
    assert!(bg_factory.get(3).is_none());
}

#[test]
fn test_background_random() {
    let mut rng = StdRng::seed_from_u64(8);
    let bg_factory = BgFactory::new(String::from("synth_text/background"), pictures(), 6, 10, &mut rng).unwrap();
    for _ in 0..30 {
        let a = bg_factory.random(&mut rng);
        assert_eq!((a.width(), a.height()), (10, 6));
        assert!((0..3).any(|i| bg_factory.index(i).as_vec() == a.as_vec()));
    }
}

#[test]
fn a_background_is_a_part_of_its_picture() {
    let mut rng = StdRng::seed_from_u64(15);
    let picture = Image::from_vec(20, 10, (0..200).map(|i| i as u8).collect()).unwrap();
    for _ in 0..20 {
        let pool = BgFactory::new(String::new(), vec![picture.clone()], 6, 10, &mut rng).unwrap();
        let cut = pool.index(0);
        let first = cut.get_pixel(0, 0) as u32;
        let (x, y) = (first % 20, first / 20);
        assert!(x <= 10 && y <= 4);
        assert_eq!(cut.as_vec(), picture.crop(x, y, 10, 6).as_vec());
    }
}

#[test]
fn a_pool_without_a_usable_picture_is_refused() {
    let mut rng = StdRng::seed_from_u64(8);
    assert_eq!(
        BgFactory::new(String::new(), vec![], 6, 10, &mut rng).err(),
        Some(Error::EmptyResourcePool)
    );
    let empty = vec![Image::from_vec(0, 3, vec![]).unwrap(), Image::from_vec(3, 0, vec![]).unwrap()];
    assert_eq!(
        BgFactory::new(String::new(), empty, 6, 10, &mut rng).err(),
        Some(Error::EmptyResourcePool)
    );
    // Longer than a resize takes once it is brought to the wanted height.
    let wide = vec![Image::from_pixel(2000, 3, 1)];
    assert_eq!(
        BgFactory::new(String::new(), wide, 64, 100, &mut rng).err(),
        Some(Error::EmptyResourcePool)
    );
    let huge = vec![Image::from_pixel(2, 2, 1)];
    assert_eq!(
        BgFactory::new(String::new(), huge, usize::MAX, 1, &mut rng).err(),
        Some(Error::EmptyResourcePool)
    );
}

#[test]
fn pictures_are_known_by_their_extension() {
    for extension in ["png", "jpg", "jpeg"] {
        assert!(is_picture(extension));
    }
    for extension in ["", "PNG", "jpe", "jpegs", "gif", "txt", "png "] {
        assert!(!is_picture(extension), "{extension}");
    }
}

#[test]
fn the_foreground_is_taken_as_ink() {
    let merge = plain_merge();
    let font = Image::from_pixel(1, 1, 200);
    let bg = Image::from_pixel(5, 5, 100);
    // One light sample in the middle of the canvas. As ink at a fifth of
    // its strength it is 11 among samples of 51, so each of its four
    // differences is -40 and the blend puts it at (4 * 100 - 160) / 4.
    let draws =
        MergeDraws { height_diff: 4_000_000, bg_alpha: 1_000_000, bg_beta: 0, font_alpha: 200_000 };
    let out = merge.poisson_edit_with(&font, &bg, draws, (2, 2), false).unwrap();
    let mut expected = vec![100u8; 25];
    expected[2 * 5 + 2] = 60;
    assert_eq!(out.into_vec(), expected);
    // At half its strength it is 27 among samples of 127.
    let draws = MergeDraws { font_alpha: 500_000, ..draws };
    let out = merge.poisson_edit_with(&font, &bg, draws, (2, 2), false).unwrap();
    assert_eq!(out.get_pixel(2, 2), 0);
    let out = merge.poisson_edit_with(&font, &bg, draws, (2, 2), true).unwrap();
    assert_eq!(out.get_pixel(2, 2), 255);
    assert_eq!(out.get_pixel(0, 0), 155);
}

#[test]
fn a_small_picture_is_enlarged_before_it_is_cut() {
    let mut rng = StdRng::seed_from_u64(5);
    let picture = Image::from_vec(3, 3, vec![0, 40, 80, 100, 140, 180, 200, 230, 255]).unwrap();
    // To cover 4 by 6 it is brought to 6 by 6: 3 * 6 / 3 columns for 6 rows.
    let enlarged = picture.resize(6, 6, Filter::CatmullRom);
    for _ in 0..20 {
        let pool = BgFactory::new(String::new(), vec![picture.clone()], 6, 4, &mut rng).unwrap();
        let cut = pool.index(0);
        assert_eq!((cut.width(), cut.height()), (4, 6));
        assert!((0..=2).any(|x| enlarged.crop(x, 0, 4, 6).as_vec() == cut.as_vec()));
    }
    // To cover 6 by 4 it is brought to 6 by 6 as well: the width decides.
    for _ in 0..20 {
        let pool = BgFactory::new(String::new(), vec![picture.clone()], 4, 6, &mut rng).unwrap();
        let cut = pool.index(0);
        assert_eq!((cut.width(), cut.height()), (6, 4));
        assert!((0..=2).any(|y| enlarged.crop(0, y, 6, 4).as_vec() == cut.as_vec()));
    }
}

#[test]
fn a_picture_wide_enough_but_too_low_is_brought_to_the_wanted_height() {
    let mut rng = StdRng::seed_from_u64(12);
    // 200 by 3 for a background of 100 by 64: 200 * 64 / 3 columns, rounded up.
    let wide = Image::from_vec(200, 3, (0..600u32).map(|i| (i % 200) as u8).collect()).unwrap();
    let enlarged = wide.resize(4267, 64, Filter::CatmullRom);
    for _ in 0..5 {
        let pool = BgFactory::new(String::new(), vec![wide.clone()], 64, 100, &mut rng).unwrap();
        assert_eq!(pool.len(), 1);
        let cut = pool.index(0);
        assert_eq!((cut.width(), cut.height()), (100, 64));
        assert!((0..=4167).any(|x| enlarged.crop(x, 0, 100, 64).as_vec() == cut.as_vec()));
    }
    // 40 by 200 for a background of 100 by 64: the width decides.
    let high = Image::from_pixel(40, 200, 7);
    let pool = BgFactory::new(String::new(), vec![high], 64, 100, &mut rng).unwrap();
    assert_eq!(pool.index(0).as_vec(), &vec![7; 6400]);
}

#[test]
fn a_merge_is_never_reversed_when_its_probability_is_zero() {
    let merge = MergeUtil {
        height_diff: Random::new_uniform(40_000_000, 40_000_000),
        ..plain_merge()
    };
    let mut rng = StdRng::seed_from_u64(40);
    let font = Image::from_vec(100, 20, vec![128; 2000]).unwrap();
    let bg = Image::from_vec(200, 60, vec![255; 12000]).unwrap();
    let draws =
        MergeDraws { height_diff: 40_000_000, bg_alpha: 900_000, bg_beta: -3_500_000, font_alpha: 1_000_000 };
    // The lit background: 255 * 0.9 - 3.5, rounded down.
    for _ in 0..5 {
        let out = merge.poisson_edit(&font, &bg, draws, &mut rng).unwrap();
        assert_eq!((out.width(), out.height()), (200, 60));
        for x in 0..200 {
            assert_eq!(out.get_pixel(x, 0), 226);
            assert_eq!(out.get_pixel(x, 59), 226);
        }
        for y in 0..60 {
            assert_eq!(out.get_pixel(0, y), 226);
            assert_eq!(out.get_pixel(199, y), 226);
        }
        let lit = out.as_vec().iter().filter(|v| **v == 226).count();
        assert!(lit >= 12000 - 2000);
        assert!(lit < 12000);
    }
}
