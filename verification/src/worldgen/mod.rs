pub mod random;
pub mod density_function;
