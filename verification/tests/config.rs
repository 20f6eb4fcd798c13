use text_image_generator::cv_util::WHOLE;
use text_image_generator::effect_helper::math::Random;
use text_image_generator::error::Error;
use text_image_generator::parse_config::{to_random, Config};

#[test]
fn the_default_configuration() {
    let config = Config::default();
    assert_eq!(config.font_dir, "./font");
    assert_eq!(config.chinese_ch_file_path, "./ch.txt");
    assert_eq!(config.main_font_list_file_path, "./symbol.txt");
    assert_eq!(config.latin_corpus_file_path, "");
    assert_eq!(config.symbol_file_path, "");
    assert_eq!(config.font_size, 50);
    assert_eq!(config.line_height, 64);
    assert_eq!(config.font_img_width, 2000);
    assert_eq!(config.font_img_height, 64);
    assert_eq!(config.box_prob, 100_000);
    assert_eq!(config.perspective_prob, 200_000);
    assert_eq!(config.perspective_x, Random::new_gaussian(-15_000_000, 15_000_000));
    assert_eq!(config.perspective_y, Random::new_gaussian(-15_000_000, 15_000_000));
    assert_eq!(config.perspective_z, Random::new_gaussian(-3_000_000, 3_000_000));
    assert_eq!(config.blur_prob, 100_000);
    assert_eq!(config.blur_sigma, Random::new_uniform(0, 1_500_000));
    assert_eq!(config.filter_prob, 10_000);
    assert_eq!(config.emboss_prob, 400_000);
    assert_eq!(config.sharp_prob, 600_000);
    assert_eq!(config.bg_dir, "./synth_text/background");
    assert_eq!(config.bg_height, 64);
    assert_eq!(config.bg_width, 1000);
    assert_eq!(config.height_diff, Random::new_uniform(2_000_000, 10_000_000));
    assert_eq!(config.bg_alpha, Random::new_gaussian(500_000, 1_500_000));
    assert_eq!(config.bg_beta, Random::new_gaussian(-50_000_000, 50_000_000));
    assert_eq!(config.font_alpha, Random::new_uniform(200_000, 1_000_000));
    assert_eq!(config.reverse_prob, 500_000);
}

#[test]
fn a_configuration_sets_the_effects_and_the_merge() {
    let config = Config::default();
    let cv = config.cv_util();
    assert_eq!(cv.box_prob, 100_000);
    assert_eq!(cv.perspective_z, Random::new_gaussian(-3_000_000, 3_000_000));
    assert_eq!(cv.blur_sigma, Random::new_uniform(0, 1_500_000));
    assert_eq!(cv.emboss_prob + cv.sharp_prob, WHOLE);
    let merge = config.merge_util();
    assert_eq!(merge.height_diff, Random::new_uniform(2_000_000, 10_000_000));
    assert_eq!(merge.bg_beta, Random::new_gaussian(-50_000_000, 50_000_000));
    assert_eq!(merge.reverse_prob, 500_000);
}

#[test]
fn a_distribution_is_named_by_a_letter() {
    assert_eq!(to_random(-1, 5, "g"), Ok(Random::Gaussian { min_val: -1, max_val: 5 }));
    assert_eq!(to_random(-1, 5, "u"), Ok(Random::Uniform { min_val: -1, max_val: 5 }));
    assert_eq!(to_random(3, 3, "u"), Ok(Random::Uniform { min_val: 3, max_val: 3 }));
    for kind in ["", "G", "x", "gu", "ug", "uniform", "測"] {
        assert_eq!(to_random(-1, 5, kind), Err(Error::InvalidConfiguration), "{kind}");
    }
    assert_eq!(to_random(5, 4, "g"), Err(Error::InvalidConfiguration));
    assert_eq!(to_random(5, 4, "u"), Err(Error::InvalidConfiguration));
}

#[test]
fn every_error_has_its_message() {
    assert_eq!(Error::InvalidConfiguration.message(), "invalid configuration");
    assert_eq!(Error::DimensionMismatch.message(), "dimension mismatch");
    assert_eq!(Error::SingularTransform.message(), "singular transform");
    assert_eq!(Error::EmptyResourcePool.message(), "empty resource pool");
}
