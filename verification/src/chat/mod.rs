pub mod component;
pub mod cfmt;
