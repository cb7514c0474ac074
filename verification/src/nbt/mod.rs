pub mod snbt;
pub mod tag;
pub mod text;
