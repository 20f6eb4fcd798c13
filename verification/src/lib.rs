//! Makes pictures of rendered text look photographed: degrades a crisp
//! picture of a line of text and blends it into a background.
//!
//! The library holds whole numbers only. A real number of a configuration
//! (a probability, a factor, an angle) is a whole number of millionths, and
//! the Poisson solver computes in fixed point with 32 bits behind the binary
//! point. Random draws come from a generator that the caller hands in.

pub mod bindings;
pub mod corpus;
pub mod cv_util;
pub mod effect_helper;
pub mod error;
pub mod image_process;
pub mod merge_util;
pub mod parse_config;
pub mod raster;
pub mod utils;
