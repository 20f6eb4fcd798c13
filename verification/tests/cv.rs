use rand::rngs::StdRng;
use rand::SeedableRng;
use text_image_generator::cv_util::{
    BoxPlacement, CvUtil, Effect, Gates, EMBOSS_KERNEL, SHARP_KERNEL, WHOLE,
};
use text_image_generator::effect_helper::cv::{rectangle, Rect};
use text_image_generator::effect_helper::math::Random;
use text_image_generator::error::Error;
use text_image_generator::bindings::Filter;
use text_image_generator::raster::Image;

fn create_cv_util() -> CvUtil {
    CvUtil {
        box_prob: 100_000,
        perspective_prob: 200_000,
        perspective_x: Random::new_gaussian(-15_000_000, 15_000_000),
        perspective_y: Random::new_gaussian(-15_000_000, 15_000_000),
        perspective_z: Random::new_gaussian(-3_000_000, 3_000_000),
        blur_prob: 100_000,
        blur_sigma: Random::new_uniform(0, 1_500_000),
        filter_prob: 10_000,
        emboss_prob: 400_000,
        sharp_prob: 600_000,
    }
}

fn text_like(width: u32, height: u32) -> Image {
    let data: Vec<u8> = (0..width * height)
        .map(|i| if (i / width + i % width) % 5 == 0 { 20 } else { 240 })
        .collect();
    Image::from_vec(width, height, data).unwrap()
}

fn open_gates() -> Gates {
    Gates { draw_box: 0, perspective: 0, blur: 0, filter: 0, emboss: 0 }
}

fn shut_gates() -> Gates {
    Gates {
        draw_box: WHOLE - 1,
        perspective: WHOLE - 1,
        blur: WHOLE - 1,
        filter: WHOLE - 1,
        emboss: WHOLE - 1,
    }
}

#[test]
fn rectangle_draws_a_frame_one_sample_thick() {
    let mut img = Image::from_pixel(6, 5, 0);
    rectangle(&mut img, Rect { left: 1, top: 1, width: 4, height: 3 }, 8, 1);
    assert_eq!(
        img.as_vec(),
        &vec![
            0, 0, 0, 0, 0, 0, //
            0, 8, 8, 8, 8, 0, //
            0, 8, 0, 0, 8, 0, //
            0, 8, 8, 8, 8, 0, //
            0, 0, 0, 0, 0, 0,
        ]
    );
}

#[test]
fn rectangle_thickens_to_the_right_and_downwards() {
    let mut img = Image::from_pixel(7, 7, 0);
    rectangle(&mut img, Rect { left: 1, top: 1, width: 4, height: 4 }, 8, 2);
    assert_eq!(
        img.as_vec(),
        &vec![
            0, 0, 0, 0, 0, 0, 0, //
            0, 8, 8, 8, 8, 8, 0, //
            0, 8, 8, 8, 8, 8, 0, //
            0, 8, 8, 0, 8, 8, 0, //
            0, 8, 8, 8, 8, 8, 0, //
            0, 8, 8, 8, 8, 0, 0, //
            0, 0, 0, 0, 0, 0, 0,
        ]
    );
}

#[test]
fn rectangle_leaves_the_middle_of_a_thick_band() {
    let mut img = Image::from_pixel(9, 9, 0);
    rectangle(&mut img, Rect { left: 0, top: 0, width: 6, height: 6 }, 5, 3);
    assert_eq!(img.get_pixel(0, 0), 5);
    assert_eq!(img.get_pixel(3, 0), 5);
    assert_eq!(img.get_pixel(3, 1), 0);
    assert_eq!(img.get_pixel(3, 2), 5);
    assert_eq!(img.get_pixel(1, 3), 0);
    assert_eq!(img.get_pixel(3, 3), 0);
    assert_eq!(img.get_pixel(7, 3), 5);
    assert_eq!(img.get_pixel(6, 3), 0);
    assert_eq!(img.get_pixel(8, 8), 0);
}

#[test]
fn sharpening_and_embossing_use_their_kernels() {
    assert_eq!(SHARP_KERNEL, [-1, -1, -1, -1, 9, -1, -1, -1, -1]);
    assert_eq!(EMBOSS_KERNEL, [-2, -1, 0, -1, 1, 1, 0, 1, 2]);
    let img = Image::from_vec(4, 3, vec![0, 0, 0, 0, 0, 200, 100, 0, 0, 0, 0, 0]).unwrap();
    assert_eq!(
        CvUtil::apply_sharp(&img).into_vec(),
        vec![0, 0, 0, 0, 0, 255, 255, 0, 0, 0, 0, 0]
    );
    assert_eq!(
        CvUtil::apply_emboss(&img).into_vec(),
        vec![255, 255, 100, 0, 200, 255, 0, 0, 0, 0, 0, 0]
    );
}

#[test]
fn test_sharp() {
    let gray = text_like(64, 24);
    let res = CvUtil::apply_sharp(&gray);
    assert_eq!((res.width(), res.height()), (64, 24));
    assert_ne!(res.as_vec(), gray.as_vec());
}

#[test]
fn test_emboss() {
    let gray = text_like(64, 24);
    let res = CvUtil::apply_emboss(&gray);
    assert_eq!((res.width(), res.height()), (64, 24));
    assert_ne!(res.as_vec(), gray.as_vec());
}

#[test]
fn test_down_up() {
    let mut rng = StdRng::seed_from_u64(11);
    let gray = text_like(64, 24);
    let res = CvUtil::apply_down_up(&gray, &mut rng).unwrap();
    assert_eq!((res.width(), res.height()), (64, 24));
}

#[test]
fn down_up_by_one_changes_nothing() {
    let gray = text_like(16, 8);
    let res = CvUtil::apply_down_up_with(&gray, WHOLE).unwrap();
    assert_eq!(res.as_vec(), gray.as_vec());
}

#[test]
fn down_up_goes_through_the_reduced_size() {
    let gray = text_like(16, 9);
    let res = CvUtil::apply_down_up_with(&gray, 1_500_000).unwrap();
    let expected = gray.resize(10, 6, Filter::Triangle).resize(16, 9, Filter::Triangle);
    assert_eq!(res.as_vec(), expected.as_vec());
    assert_ne!(res.as_vec(), gray.as_vec());
    let res = CvUtil::apply_down_up_with(&gray, 2 * WHOLE).unwrap();
    let expected = gray.resize(8, 4, Filter::Triangle).resize(16, 9, Filter::Triangle);
    assert_eq!(res.as_vec(), expected.as_vec());
}

#[test]
fn down_up_refuses_a_factor_outside_one_to_two() {
    let gray = text_like(16, 8);
    assert_eq!(
        CvUtil::apply_down_up_with(&gray, WHOLE - 1).err(),
        Some(Error::InvalidConfiguration)
    );
    assert_eq!(
        CvUtil::apply_down_up_with(&gray, 2 * WHOLE + 1).err(),
        Some(Error::InvalidConfiguration)
    );
}

#[test]
fn test_draw_box() {
    let mut rng = StdRng::seed_from_u64(3);
    let gray = text_like(64, 24);
    let res = CvUtil::draw_box(&gray, 1_300_000, &mut rng).unwrap();
    assert_eq!((res.width(), res.height()), (64, 24));
    assert_ne!(res.as_vec(), gray.as_vec());
}

#[test]
fn draw_box_wants_a_canvas_larger_than_the_image() {
    let mut rng = StdRng::seed_from_u64(3);
    let gray = text_like(10, 10);
    assert_eq!(
        CvUtil::draw_box(&gray, 999_999, &mut rng).err(),
        Some(Error::InvalidConfiguration)
    );
    assert_eq!(CvUtil::draw_box(&gray, 0, &mut rng).err(), Some(Error::InvalidConfiguration));
    assert_eq!(CvUtil::draw_box(&gray, WHOLE, &mut rng).err(), Some(Error::DimensionMismatch));
    let empty = Image::from_vec(0, 5, vec![]).unwrap();
    assert_eq!(
        CvUtil::draw_box(&empty, 1_300_000, &mut rng).err(),
        Some(Error::DimensionMismatch)
    );
    assert!(CvUtil::draw_box(&gray, 1_000_001, &mut rng).is_ok());
}

#[test]
fn draw_box_with_draws_what_the_placement_says() {
    let gray = Image::from_pixel(4, 2, 100);
    let placement = BoxPlacement {
        top: 1,
        left: 1,
        box_left: 1,
        box_top: 1,
        box_width: 4,
        box_height: 2,
        color: 60,
        thickness: 1,
    };
    // The canvas is 6 by 3: ceil(4 * 1.3) by ceil(2 * 1.3).
    let out = CvUtil::draw_box_with(&gray, 1_300_000, placement).unwrap();
    let canvas = Image::from_vec(
        6,
        3,
        vec![
            0, 0, 0, 0, 0, 0, //
            0, 60, 60, 60, 60, 0, //
            0, 60, 60, 60, 60, 0,
        ],
    )
    .unwrap();
    assert_eq!(out.as_vec(), canvas.resize(4, 2, Filter::Triangle).as_vec());
}

#[test]
fn draw_box_with_refuses_a_box_that_misses_the_image() {
    let gray = Image::from_pixel(10, 10, 100);
    let good = BoxPlacement {
        top: 2,
        left: 2,
        box_left: 1,
        box_top: 1,
        box_width: 11,
        box_height: 11,
        color: 50,
        thickness: 2,
    };
    assert!(CvUtil::draw_box_with(&gray, 1_300_000, good).is_ok());
    let cases = [
        BoxPlacement { top: 0, ..good },
        BoxPlacement { top: 4, ..good },
        BoxPlacement { left: 0, ..good },
        BoxPlacement { left: 4, ..good },
        BoxPlacement { box_left: 0, ..good },
        BoxPlacement { box_left: 3, ..good },
        BoxPlacement { box_top: 0, ..good },
        BoxPlacement { box_top: 3, ..good },
        BoxPlacement { box_width: 10, ..good },
        BoxPlacement { box_width: 13, ..good },
        BoxPlacement { box_height: 10, ..good },
        BoxPlacement { box_height: 13, ..good },
        BoxPlacement { color: 49, ..good },
        BoxPlacement { thickness: 0, ..good },
        BoxPlacement { thickness: 3, ..good },
    ];
    for case in cases {
        assert_eq!(
            CvUtil::draw_box_with(&gray, 1_300_000, case).err(),
            Some(Error::InvalidConfiguration),
            "{case:?}"
        );
    }
}

#[test]
fn a_box_is_always_drawn_when_its_probability_is_one() {
    let cv = CvUtil {
        box_prob: WHOLE,
        perspective_prob: 0,
        blur_prob: 0,
        filter_prob: 0,
        ..create_cv_util()
    };
    let mut rng = StdRng::seed_from_u64(2024);
    let gray = text_like(24, 10);
    for _ in 0..10_000 {
        let gates = CvUtil::draw_gates(&mut rng);
        let plan = cv.plan_effect(gates, (0, 0, 0), 0).unwrap();
        assert_eq!(plan, vec![Effect::Box]);
        let out = CvUtil::draw_box(&gray, 1_300_000, &mut rng).unwrap();
        assert_eq!((out.width(), out.height()), (24, 10));
        assert_ne!(out.as_vec(), gray.as_vec());
    }
}

#[test]
fn test_effect() {
    let cv = create_cv_util();
    let mut rng = StdRng::seed_from_u64(5);
    let mut gray = text_like(64, 24);
    for _ in 0..200 {
        let gates = CvUtil::draw_gates(&mut rng);
        let plan = cv.plan_effect(gates, (1_000_000, -2_000_000, 500_000), 700_000).unwrap();
        for effect in plan {
            gray = match effect {
                Effect::Box => CvUtil::draw_box(&gray, 1_300_000, &mut rng).unwrap(),
                Effect::Emboss => CvUtil::apply_emboss(&gray),
                Effect::Sharp => CvUtil::apply_sharp(&gray),
                Effect::Perspective { .. } | Effect::Blur { .. } => gray,
            };
        }
        assert_eq!((gray.width(), gray.height()), (64, 24));
    }
}

#[test]
fn the_plan_follows_the_gates() {
    let cv = create_cv_util();
    assert_eq!(cv.plan_effect(shut_gates(), (0, 0, 0), 0), Ok(vec![]));
    assert_eq!(
        cv.plan_effect(open_gates(), (1, 2, 3), 4),
        Ok(vec![
            Effect::Box,
            Effect::Perspective { x: 1, y: 2, z: 3 },
            Effect::Blur { sigma: 4 },
            Effect::Emboss,
        ])
    );
    let gates = Gates { emboss: 400_000, ..open_gates() };
    assert_eq!(
        cv.plan_effect(gates, (1, 2, 3), 4).unwrap().last(),
        Some(&Effect::Sharp)
    );
    let gates = Gates { emboss: 399_999, ..open_gates() };
    assert_eq!(
        cv.plan_effect(gates, (1, 2, 3), 4).unwrap().last(),
        Some(&Effect::Emboss)
    );
    let gates = Gates { blur: 100_000, ..open_gates() };
    assert_eq!(
        cv.plan_effect(gates, (1, 2, 3), 4),
        Ok(vec![Effect::Box, Effect::Perspective { x: 1, y: 2, z: 3 }])
    );
    let gates = Gates { filter: 10_000, draw_box: 100_000, ..open_gates() };
    assert_eq!(
        cv.plan_effect(gates, (1, 2, 3), 4),
        Ok(vec![Effect::Perspective { x: 1, y: 2, z: 3 }, Effect::Blur { sigma: 4 }])
    );
}

#[test]
fn the_plan_cuts_draws_off_at_the_ends_of_their_intervals() {
    let cv = create_cv_util();
    let plan = cv.plan_effect(open_gates(), (-20_000_000, 16_000_000, 3_000_000), -1).unwrap();
    assert_eq!(plan[1], Effect::Perspective { x: -15_000_000, y: 15_000_000, z: 3_000_000 });
    assert_eq!(plan[2], Effect::Blur { sigma: 0 });
}

#[test]
fn embossing_and_sharpening_must_make_one() {
    let cv = CvUtil { emboss_prob: 400_000, sharp_prob: 600_001, ..create_cv_util() };
    assert_eq!(
        cv.plan_effect(open_gates(), (0, 0, 0), 0),
        Err(Error::InvalidConfiguration)
    );
    let cv = CvUtil { emboss_prob: u32::MAX, sharp_prob: u32::MAX, ..create_cv_util() };
    assert_eq!(
        cv.plan_effect(shut_gates(), (0, 0, 0), 0),
        Err(Error::InvalidConfiguration)
    );
    let cv = CvUtil { emboss_prob: 0, sharp_prob: WHOLE, ..create_cv_util() };
    assert!(cv.plan_effect(open_gates(), (0, 0, 0), 0).is_ok());
}

#[test]
fn gates_are_drawn_below_one() {
    let mut rng = StdRng::seed_from_u64(9);
    let first = CvUtil::draw_gates(&mut rng);
    assert!((0..100).any(|_| CvUtil::draw_gates(&mut rng) != first));
    assert!((0..100).any(|_| CvUtil::draw_gates(&mut rng).draw_box != 0));
    for _ in 0..1000 {
        let gates = CvUtil::draw_gates(&mut rng);
        assert!(gates.draw_box < WHOLE);
        assert!(gates.perspective < WHOLE);
        assert!(gates.blur < WHOLE);
        assert!(gates.filter < WHOLE);
        assert!(gates.emboss < WHOLE);
    }
}

#[test]
fn test_warp_perspective_transform() {
    let warped = text_like(80, 80);
    let res = CvUtil::fit_warped(&warped, (8, 20, 71, 44), 64, 24).unwrap();
    assert!(res.width() <= 64 && res.height() <= 24);
    assert_eq!((res.width(), res.height()), (62, 24));
}

#[test]
fn a_warped_text_is_fitted_by_height_or_by_width() {
    let warped = text_like(50, 40);
    // 20 by 10 into 100 by 40: the height decides.
    let res = CvUtil::fit_warped(&warped, (0, 0, 19, 9), 100, 40).unwrap();
    assert_eq!((res.width(), res.height()), (80, 40));
    // 20 by 10 into 60 by 40: the width decides.
    let res = CvUtil::fit_warped(&warped, (0, 0, 19, 9), 60, 40).unwrap();
    assert_eq!((res.width(), res.height()), (60, 30));
    // 30 by 7 into 100 by 10: 30 * 10 / 7 is rounded up.
    let res = CvUtil::fit_warped(&warped, (5, 5, 34, 11), 100, 10).unwrap();
    assert_eq!((res.width(), res.height()), (43, 10));
    let same = CvUtil::fit_warped(&warped, (3, 2, 12, 6), 10, 5).unwrap();
    assert_eq!(same.as_vec(), warped.crop(3, 2, 10, 5).as_vec());
}

#[test]
fn a_fit_refuses_bounds_beyond_the_image() {
    let warped = text_like(50, 40);
    assert_eq!(
        CvUtil::fit_warped(&warped, (0, 0, 50, 9), 10, 10).err(),
        Some(Error::DimensionMismatch)
    );
    assert_eq!(
        CvUtil::fit_warped(&warped, (0, 0, 9, 40), 10, 10).err(),
        Some(Error::DimensionMismatch)
    );
    assert_eq!(
        CvUtil::fit_warped(&warped, (5, 0, 4, 9), 10, 10).err(),
        Some(Error::DimensionMismatch)
    );
    assert_eq!(
        CvUtil::fit_warped(&warped, (0, 9, 9, 8), 10, 10).err(),
        Some(Error::DimensionMismatch)
    );
    assert!(CvUtil::fit_warped(&warped, (49, 39, 49, 39), 10, 10).is_ok());
}

#[test]
fn what_is_longer_than_a_resize_takes_is_refused() {
    let warped = text_like(50, 40);
    // 20 by 10 fitted into 100000 by 40000 would be 80000 by 40000.
    assert_eq!(
        CvUtil::fit_warped(&warped, (0, 0, 19, 9), 100_000, 40_000).err(),
        Some(Error::DimensionMismatch)
    );
    assert!(CvUtil::fit_warped(&warped, (0, 0, 19, 9), 32_768, 30).is_ok());
    let mut rng = StdRng::seed_from_u64(2);
    // A canvas of 39000 columns for an image of 30000.
    let long = Image::from_pixel(30_000, 1, 200);
    assert_eq!(
        CvUtil::draw_box(&long, 1_300_000, &mut rng).err(),
        Some(Error::DimensionMismatch)
    );
    let fits = Image::from_pixel(25_000, 1, 200);
    assert!(CvUtil::draw_box(&fits, 1_300_000, &mut rng).is_ok());
    let longer = Image::from_pixel(32_769, 1, 200);
    assert_eq!(
        CvUtil::apply_down_up(&longer, &mut rng).err(),
        Some(Error::DimensionMismatch)
    );
    assert_eq!(
        CvUtil::apply_down_up_with(&longer, 1_500_000).err(),
        Some(Error::DimensionMismatch)
    );
}
