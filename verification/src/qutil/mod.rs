pub mod hash;
pub mod math;
pub mod threadpool;
pub mod map;
pub mod uln;
pub mod uuid;
