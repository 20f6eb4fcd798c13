pub mod cv;
pub mod math;
pub mod poisson_editing;
pub mod residual;
