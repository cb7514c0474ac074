pub mod legacy_random;
pub mod util;
pub mod worldgen;
pub mod java;
