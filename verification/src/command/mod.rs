pub mod arg;
pub mod executor;
