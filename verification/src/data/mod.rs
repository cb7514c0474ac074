pub mod chunk;
pub mod registry;
pub mod uln;
pub mod uuid;
