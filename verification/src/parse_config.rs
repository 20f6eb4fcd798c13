//! The configuration and its defaults.

use vstd::prelude::*;
use vstd::string::StringExecFns;
use crate::cv_util::CvUtil;
use crate::effect_helper::math::Random;
use crate::error::Error;
use crate::merge_util::MergeUtil;

verus! {

/// Everything that can be set for the making of text images. Real numbers
/// are held in millionths.
#[derive(Clone, Debug)]
pub struct Config {
    pub font_dir: String,
    pub chinese_ch_file_path: String,
    pub main_font_list_file_path: String,
    pub latin_corpus_file_path: String,
    pub symbol_file_path: String,
    pub font_size: usize,
    pub line_height: usize,
    pub font_img_height: usize,
    pub font_img_width: usize,
    pub box_prob: u32,
    pub perspective_prob: u32,
    pub perspective_x: Random,
    pub perspective_y: Random,
    pub perspective_z: Random,
    pub blur_prob: u32,
    pub blur_sigma: Random,
    pub filter_prob: u32,
    pub emboss_prob: u32,
    pub sharp_prob: u32,
    pub bg_dir: String,
    pub bg_height: usize,
    pub bg_width: usize,
    pub height_diff: Random,
    pub bg_alpha: Random,
    pub bg_beta: Random,
    pub font_alpha: Random,
    pub reverse_prob: u32,
}

/// The distribution that a configuration names by an interval and a
/// letter: `g` for the cut-off Gaussian, `u` for the uniform one.
pub open spec fn named(min_val: i64, max_val: i64, kind: Seq<char>) -> Option<Random> {
    if min_val > max_val {
        None
    } else if kind == seq!['g'] {
        Some(Random::Gaussian { min_val, max_val })
    } else if kind == seq!['u'] {
        Some(Random::Uniform { min_val, max_val })
    } else {
        None
    }
}

/// Makes the distribution that a configuration names. Refuses an interval
/// whose ends are out of order and a letter other than `g` and `u`.
pub fn to_random(min_val: i64, max_val: i64, kind: &str) -> (r: Result<Random, Error>)
    ensures
        r is Ok <==> named(min_val, max_val, kind@) is Some,
        r matches Ok(random) ==> Some(random) == named(min_val, max_val, kind@) && random.wf(),
        r matches Err(e) ==> e == Error::InvalidConfiguration,
{
    proof {
        reveal_strlit("g");
        reveal_strlit("u");
    }
    if min_val > max_val {
        return Err(Error::InvalidConfiguration);
    }
    let letters = kind.unicode_len();
    if letters != 1 {
        proof {
            assert(kind@ != seq!['g'] && kind@ != seq!['u']);
        }
        return Err(Error::InvalidConfiguration);
    }
    let letter = kind.get_char(0);
    if letter == 'g' {
        proof {
            assert(kind@ =~= seq!['g']);
        }
        Ok(Random::new_gaussian(min_val, max_val))
    } else if letter == 'u' {
        proof {
            assert(kind@ =~= seq!['u']);
            assert(seq!['u'][0] != seq!['g'][0]);
        }
        Ok(Random::new_uniform(min_val, max_val))
    } else {
        proof {
            assert(seq!['u'][0] != letter && seq!['g'][0] != letter);
        }
        Err(Error::InvalidConfiguration)
    }
}

impl Config {
    /// The degradations that this configuration sets.
    pub fn cv_util(&self) -> (cv: CvUtil)
        ensures
            cv.box_prob == self.box_prob,
            cv.perspective_prob == self.perspective_prob,
            cv.perspective_x == self.perspective_x,
            cv.perspective_y == self.perspective_y,
            cv.perspective_z == self.perspective_z,
            cv.blur_prob == self.blur_prob,
            cv.blur_sigma == self.blur_sigma,
            cv.filter_prob == self.filter_prob,
            cv.emboss_prob == self.emboss_prob,
            cv.sharp_prob == self.sharp_prob,
    {
        CvUtil {
            box_prob: self.box_prob,
            perspective_prob: self.perspective_prob,
            perspective_x: self.perspective_x,
            perspective_y: self.perspective_y,
            perspective_z: self.perspective_z,
            blur_prob: self.blur_prob,
            blur_sigma: self.blur_sigma,
            filter_prob: self.filter_prob,
            emboss_prob: self.emboss_prob,
            sharp_prob: self.sharp_prob,
        }
    }

    /// The merge that this configuration sets.
    pub fn merge_util(&self) -> (merge: MergeUtil)
        ensures
            merge.height_diff == self.height_diff,
            merge.bg_alpha == self.bg_alpha,
            merge.bg_beta == self.bg_beta,
            merge.font_alpha == self.font_alpha,
            merge.reverse_prob == self.reverse_prob,
    {
        MergeUtil {
            height_diff: self.height_diff,
            bg_alpha: self.bg_alpha,
            bg_beta: self.bg_beta,
            font_alpha: self.font_alpha,
            reverse_prob: self.reverse_prob,
        }
    }
}

impl Default for Config {
    fn default() -> (config: Config)
        ensures
            config.font_dir@ == "./font"@,
            config.chinese_ch_file_path@ == "./ch.txt"@,
            config.main_font_list_file_path@ == "./symbol.txt"@,
            config.latin_corpus_file_path@ == ""@,
            config.symbol_file_path@ == ""@,
            config.font_size == 50,
            config.line_height == 64,
            config.font_img_width == 2000,
            config.font_img_height == 64,
            config.box_prob == 100_000,
            config.perspective_prob == 200_000,
            config.perspective_x == (Random::Gaussian { min_val: -15_000_000i64, max_val: 15_000_000 }),
            config.perspective_y == (Random::Gaussian { min_val: -15_000_000i64, max_val: 15_000_000 }),
            config.perspective_z == (Random::Gaussian { min_val: -3_000_000i64, max_val: 3_000_000 }),
            config.blur_prob == 100_000,
            config.blur_sigma == (Random::Uniform { min_val: 0, max_val: 1_500_000 }),
            config.filter_prob == 10_000,
            config.emboss_prob == 400_000,
            config.sharp_prob == 600_000,
            config.bg_dir@ == "./synth_text/background"@,
            config.bg_height == 64,
            config.bg_width == 1000,
            config.height_diff == (Random::Uniform { min_val: 2_000_000, max_val: 10_000_000 }),
            config.bg_alpha == (Random::Gaussian { min_val: 500_000, max_val: 1_500_000 }),
            config.bg_beta == (Random::Gaussian { min_val: -50_000_000i64, max_val: 50_000_000 }),
            config.font_alpha == (Random::Uniform { min_val: 200_000, max_val: 1_000_000 }),
            config.reverse_prob == 500_000,
    {
        Config {
            font_dir: String::from_str("./font"),
            chinese_ch_file_path: String::from_str("./ch.txt"),
            main_font_list_file_path: String::from_str("./symbol.txt"),
            latin_corpus_file_path: String::from_str(""),
            symbol_file_path: String::from_str(""),
            font_size: 50,
            line_height: 64,
            font_img_width: 2000,
            font_img_height: 64,
            box_prob: 100_000,
            perspective_prob: 200_000,
            perspective_x: Random::new_gaussian(-15_000_000, 15_000_000),
            perspective_y: Random::new_gaussian(-15_000_000, 15_000_000),
            perspective_z: Random::new_gaussian(-3_000_000, 3_000_000),
            blur_prob: 100_000,
            blur_sigma: Random::new_uniform(0, 1_500_000),
            filter_prob: 10_000,
            emboss_prob: 400_000,
            sharp_prob: 600_000,
            bg_dir: String::from_str("./synth_text/background"),
            bg_height: 64,
            bg_width: 1000,
            height_diff: Random::new_uniform(2_000_000, 10_000_000),
            bg_alpha: Random::new_gaussian(500_000, 1_500_000),
            bg_beta: Random::new_gaussian(-50_000_000, 50_000_000),
            font_alpha: Random::new_uniform(200_000, 1_000_000),
            reverse_prob: 500_000,
        }
    }
}

} // verus!
