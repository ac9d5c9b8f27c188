pub mod utils;
pub mod rng;
pub mod ecvrf;
