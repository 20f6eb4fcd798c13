use text_image_generator::effect_helper::math::{Random, MILLION};

#[test]
fn a_uniform_keeps_its_interval() {
    let r = Random::new_uniform(-2 * MILLION, 5 * MILLION);
    assert_eq!(r, Random::Uniform { min_val: -2_000_000, max_val: 5_000_000 });
    assert_eq!(r.min_val(), -2_000_000);
    assert_eq!(r.max_val(), 5_000_000);
}

#[test]
fn a_gaussian_lies_in_the_middle_of_its_interval() {
    let r = Random::new_gaussian(-15 * MILLION, 15 * MILLION);
    assert_eq!(r, Random::Gaussian { min_val: -15_000_000, max_val: 15_000_000 });
    assert_eq!(r.mean(), 0);
    assert_eq!(r.sigma(), 5_000_000);
    let r = Random::new_gaussian(500_000, 1_500_000);
    assert_eq!(r.mean(), 1_000_000);
    assert_eq!(r.sigma(), 166_666);
    let r = Random::new_gaussian(-4, 1);
    assert_eq!(r.mean(), -2);
    assert_eq!(r.sigma(), 0);
    let r = Random::new_gaussian(i64::MIN, i64::MAX);
    assert_eq!(r.mean(), -1);
    assert_eq!(r.sigma(), 3074457345618258602);
}

#[test]
fn a_sample_is_the_draw_cut_off_at_the_ends() {
    for r in [Random::new_gaussian(-3, 7), Random::new_uniform(-3, 7)] {
        assert_eq!(r.sample(-4), -3);
        assert_eq!(r.sample(-3), -3);
        assert_eq!(r.sample(0), 0);
        assert_eq!(r.sample(7), 7);
        assert_eq!(r.sample(8), 7);
        assert_eq!(r.sample(i64::MAX), 7);
        assert_eq!(r.sample(i64::MIN), -3);
    }
}
